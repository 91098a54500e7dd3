//! Path and title handling for blog documents.
//!
//! The file system itself is a collaborator outside this library; here a
//! path is modelled as its ordered components, which is everything this
//! logic reads of one.  The functions extract a path's basename, derive a
//! language name from a directory path, and turn a blog's filename into a
//! display title.

use vstd::prelude::*;
use vstd::string::StrSliceExecFns;
use vstd::string::StringExecFns;

verus! {

/// A file-system path, modelled as its ordered components.
pub struct BlogPath {
    components: Vec<String>,
}

impl View for BlogPath {
    type V = Seq<Seq<char>>;

    closed spec fn view(&self) -> Seq<Seq<char>> {
        self.components.deep_view()
    }
}

impl BlogPath {
    /// An empty path, with no components.
    pub fn new() -> (r: BlogPath)
        ensures
            r@ == Seq::<Seq<char>>::empty(),
    {
        let r = BlogPath { components: Vec::new() };
        proof {
            assert(r@ =~= Seq::<Seq<char>>::empty());
        }
        r
    }

    /// Appends one component to the path.
    pub fn push(&mut self, component: &str)
        ensures
            final(self)@ == old(self)@.push(component@),
    {
        let ghost before = self.components.deep_view();
        self.components.push(String::from_str(component));
        proof {
            assert(self.components.deep_view() =~= before.push(component@));
        }
    }
}

/// An error raised while handling a blog path, carrying its message.
#[derive(Debug)]
pub struct DumpError {
    /// What went wrong, as text.
    pub message: String,
}

impl View for DumpError {
    type V = Seq<char>;

    open spec fn view(&self) -> Seq<char> {
        self.message@
    }
}

/// A path's display text: its components joined by `/`.
pub open spec fn display_spec(path: Seq<Seq<char>>) -> Seq<char>
    decreases path.len(),
{
    if path.len() == 0 {
        Seq::<char>::empty()
    } else if path.len() == 1 {
        path[0]
    } else {
        display_spec(path.drop_last()) + seq!['/'] + path.last()
    }
}

/// The message of the error raised when a path has no basename.
pub open spec fn cannot_extract_message(path: Seq<Seq<char>>) -> Seq<char> {
    "basename could not be extracted from absolute path "@ + display_spec(path)
}

impl BlogPath {
    /// The path's display text: its components joined by `/`.
    pub fn display(&self) -> (r: String)
        ensures
            r@ == display_spec(self@),
    {
        proof {
            reveal_strlit("/");
        }
        let mut out = String::new();
        if self.components.len() == 0 {
            proof {
                assert(out@ =~= display_spec(self@));
            }
            return out;
        }
        out.append(self.components[0].as_str());
        let mut i: usize = 1;
        while i < self.components.len()
            invariant
                1 <= i <= self.components.len(),
                self.components.len() >= 1,
                out@ == display_spec(self@.subrange(0, i as int)),
                "/"@ == seq!['/'],
            decreases self.components.len() - i,
        {
            let ghost prefix = self@.subrange(0, i as int);
            let ghost prefix1 = self@.subrange(0, i + 1);
            out.append("/");
            out.append(self.components[i].as_str());
            proof {
                assert(prefix1.drop_last() =~= prefix);
                assert(prefix1.last() == self@[i as int]);
                assert(out@ =~= display_spec(prefix1));
            }
            i = i + 1;
        }
        proof {
            assert(self@.subrange(0, self@.len() as int) =~= self@);
        }
        out
    }
}

/// Helper function to generate an error when the basename cannot be
/// extracted.
///
/// # Arguments
/// * `path` - The path from which the basename could not be extracted.
pub fn gen_cannot_extract_basename(path: &BlogPath) -> (e: DumpError)
    ensures
        e@ == cannot_extract_message(path@),
{
    let mut message = String::from_str("basename could not be extracted from absolute path ");
    let shown = path.display();
    message.append(shown.as_str());
    DumpError { message }
}

/// Extracts the basename from a path and returns it as a `String`.
///
/// Returns the path's last component; a path with no components has no
/// basename, and the error says so.
///
/// # Arguments
/// * `path` - The path from which to extract the basename.
///
/// # Errors
/// If the basename could not be extracted from the path.
pub fn basename(path: &BlogPath) -> (r: Result<String, DumpError>)
    ensures
        match r {
            Ok(base) => path@.len() > 0 && base@ == path@.last(),
            Err(e) => path@.len() == 0 && e@ == cannot_extract_message(path@),
        },
{
    let len = path.components.len();
    if len == 0 {
        Err(gen_cannot_extract_basename(path))
    } else {
        let base = path.components[len - 1].clone();
        proof {
            assert(path@[len - 1] == path.components@[len - 1]@);
        }
        Ok(base)
    }
}

/// Gets the language name from the path by extracting the basename.
///
/// # Arguments
/// * `lang` - The path to the language directory.
///
/// # Errors
/// If the basename could not be extracted from the path.
pub fn get_lang_name(lang: &BlogPath) -> (r: Result<String, DumpError>)
    ensures
        match r {
            Ok(name) => lang@.len() > 0 && name@ == lang@.last(),
            Err(e) => lang@.len() == 0 && e@ == cannot_extract_message(lang@),
        },
{
    basename(&lang)
}

/// `s` with every `-` replaced by a space.
pub open spec fn replace_dashes_spec(s: Seq<char>) -> Seq<char> {
    s.map_values(|c: char| if c == '-' { ' ' } else { c })
}

/// Replaces every `-` in `s` with a space.
fn replace_dashes(s: &str) -> (r: String)
    ensures
        r@ == replace_dashes_spec(s@),
{
    proof {
        reveal_strlit(" ");
    }
    let n = s.unicode_len();
    let mut out = String::new();
    let mut i: usize = 0;
    while i < n
        invariant
            0 <= i <= n,
            n == s@.len(),
            out@ == s@.subrange(0, i as int).map_values(|c: char| if c == '-' { ' ' } else { c }),
            " "@ == seq![' '],
        decreases n - i,
    {
        let ghost prefix = s@.subrange(0, i as int);
        let ghost prefix1 = s@.subrange(0, i + 1);
        if s.get_char(i) == '-' {
            out.append(" ");
        } else {
            out.append(s.substring_char(i, i + 1));
            proof {
                assert(s@.subrange(i as int, i + 1) =~= seq![s@[i as int]]);
            }
        }
        proof {
            assert(out@ =~= prefix1.map_values(|c: char| if c == '-' { ' ' } else { c }));
        }
        i = i + 1;
    }
    proof {
        assert(s@.subrange(0, n as int) =~= s@);
    }
    out
}

/// `s` with one trailing `.md` suffix removed, when present.
pub open spec fn strip_md_spec(s: Seq<char>) -> Seq<char> {
    if s.len() >= 3 && s[s.len() - 3] == '.' && s[s.len() - 2] == 'm' && s[s.len() - 1] == 'd' {
        s.subrange(0, s.len() - 3)
    } else {
        s
    }
}

/// Removes one trailing `.md` suffix from `s`, when present.
fn strip_md<'a>(s: &'a str) -> (r: &'a str)
    ensures
        r@ == strip_md_spec(s@),
{
    let n = s.unicode_len();
    if n >= 3 && s.get_char(n - 3) == '.' && s.get_char(n - 2) == 'm' && s.get_char(n - 1) == 'd' {
        s.substring_char(0, n - 3)
    } else {
        proof {
            assert(s@.subrange(0, n as int) =~= s@);
        }
        s.substring_char(0, n)
    }
}

/// A blog's display title, derived from its filename: every `-` becomes a
/// space and one trailing `.md` suffix is removed.
pub open spec fn title_spec(base: Seq<char>) -> Seq<char> {
    strip_md_spec(replace_dashes_spec(base))
}

/// Prepares the title for a blog by extracting the basename and formatting
/// it: `-` becomes a space and a trailing `.md` suffix is dropped.
///
/// # Arguments
/// * `blog` - The path to the blog file.
///
/// # Errors
/// If there was an error extracting the basename.
pub fn prepare_title(blog: &BlogPath) -> (r: Result<String, DumpError>)
    ensures
        match r {
            Ok(title) => blog@.len() > 0 && title@ == title_spec(blog@.last()),
            Err(e) => blog@.len() == 0 && e@ == cannot_extract_message(blog@),
        },
{
    let base = match basename(blog) {
        Ok(base) => base,
        Err(e) => {
            return Err(e);
        },
    };
    let replaced = replace_dashes(base.as_str());
    let title = String::from_str(strip_md(replaced.as_str()));
    Ok(title)
}

} // verus!
