//! A single directory entry: its name, canonical path, and the
//! metadata-derived display fields the browser needs.
//!
//! An entry is built once from plain values read off the filesystem by the
//! caller (name, canonical path, directory flag, Unix mode word, display
//! suffix) and is immutable afterwards except for its mark flag.

use vstd::prelude::*;
use vstd::string::StrSliceExecFns;

verus! {

/// A name counts as hidden when it starts with `.` or `__`,
/// or carries an editor swap-file suffix `.swp`.
pub open spec fn hidden_name(s: Seq<char>) -> bool {
    ||| (s.len() >= 1 && s[0] == '.')
    ||| (s.len() >= 2 && s[0] == '_' && s[1] == '_')
    ||| (s.len() >= 4 && s[s.len() - 4] == '.' && s[s.len() - 3] == 's' && s[s.len() - 2] == 'w'
        && s[s.len() - 1] == 'p')
}

/// Decides whether a file name is treated as hidden.
pub fn is_hidden_name(name: &str) -> (r: bool)
    ensures
        r == hidden_name(name@),
{
    let n = name.unicode_len();
    let starts_dot = n >= 1 && name.get_char(0) == '.';
    let starts_dunder = n >= 2 && name.get_char(0) == '_' && name.get_char(1) == '_';
    let ends_swp = n >= 4 && name.get_char(n - 4) == '.' && name.get_char(n - 3) == 's'
        && name.get_char(n - 2) == 'w' && name.get_char(n - 1) == 'p';
    starts_dot || starts_dunder || ends_swp
}

/// The lowercase form of a character sequence, as `str::to_lowercase`
/// computes it.
pub uninterp spec fn lower_of(s: Seq<char>) -> Seq<char>;

/// Relies on str::to_lowercase: the result is a function of the
/// characters alone.
#[verifier::external_body]
fn lowercase_of(s: &str) -> (r: String)
    ensures
        r@ == lower_of(s@),
{
    s.to_lowercase()
}

/// One of the three permission classes of a Unix mode word.
#[derive(Clone, Copy, Debug, PartialEq, Eq, Structural)]
pub enum PermClass {
    User,
    Group,
    Other,
}

/// Whether the execute bit for the given class is set in a mode word.
pub open spec fn exec_bit(class: PermClass, mode: u32) -> bool {
    match class {
        PermClass::User => mode & 0o100 != 0,
        PermClass::Group => mode & 0o010 != 0,
        PermClass::Other => mode & 0o001 != 0,
    }
}

/// Relies on unix_mode::is_allowed: it tests the execute bit of the
/// permission triple selected by the accessor.
#[verifier::external_body]
fn allows_execute(class: PermClass, mode: u32) -> (r: bool)
    ensures
        r == exec_bit(class, mode),
{
    let by = match class {
        PermClass::User => unix_mode::Accessor::User,
        PermClass::Group => unix_mode::Accessor::Group,
        PermClass::Other => unix_mode::Accessor::Other,
    };
    unix_mode::is_allowed(by, unix_mode::Access::Execute, mode)
}

/// Whether any of the three execute bits is set in a mode word.
pub open spec fn executable_mode(mode: u32) -> bool {
    exec_bit(PermClass::User, mode) || exec_bit(PermClass::Group, mode) || exec_bit(
        PermClass::Other,
        mode,
    )
}

/// Decides whether a mode word grants execute permission to anyone.
pub fn is_executable_mode(mode: u32) -> (r: bool)
    ensures
        r == executable_mode(mode),
{
    allows_execute(PermClass::User, mode) || allows_execute(PermClass::Group, mode)
        || allows_execute(PermClass::Other, mode)
}

/// An element of a directory listing.
///
/// Holds the path together with what the browser displays for it: a file
/// with path `/home/user/something.txt` is shown as `something.txt`.
#[derive(Debug, Clone)]
pub struct DirElem {
    /// Name of the element.
    pub name: String,
    /// Lowercase name, precomputed once for case-insensitive ordering.
    pub lowercase: String,
    /// Full (canonicalized) path of the element.
    pub path: String,
    /// Whether the element is a directory.
    pub is_dir: bool,
    /// Whether the element is executable by anyone.
    pub is_executable: bool,
    /// Display suffix: child count for a directory, formatted size for a file.
    pub suffix: String,
    /// True if the element is a hidden file or directory.
    pub is_hidden: bool,
    /// True if the element is marked for a batch operation.
    pub is_marked: bool,
}

impl DirElem {
    /// Builds an entry from plain values the caller read off the filesystem:
    /// the file name, its canonical path, whether it is a directory, its Unix
    /// mode word, and the preformatted display suffix.
    pub fn new(name: String, path: String, is_dir: bool, mode: u32, suffix: String) -> (e: DirElem)
        ensures
            e.name == name,
            e.lowercase@ == lower_of(name@),
            e.path == path,
            e.is_dir == is_dir,
            e.is_executable == executable_mode(mode),
            e.suffix == suffix,
            e.is_hidden == hidden_name(name@),
            e.is_marked == false,
    {
        let lowercase = lowercase_of(name.as_str());
        let is_hidden = is_hidden_name(name.as_str());
        let is_executable = is_executable_mode(mode);
        DirElem { name, lowercase, path, is_dir, is_executable, suffix, is_hidden, is_marked: false }
    }

    pub fn name(&self) -> (r: &String)
        ensures
            r == self.name,
    {
        &self.name
    }

    pub fn name_lowercase(&self) -> (r: &String)
        ensures
            r == self.lowercase,
    {
        &self.lowercase
    }

    pub fn path(&self) -> (r: &String)
        ensures
            r == self.path,
    {
        &self.path
    }

    pub fn is_hidden(&self) -> (r: bool)
        ensures
            r == self.is_hidden,
    {
        self.is_hidden
    }

    pub fn is_marked(&self) -> (r: bool)
        ensures
            r == self.is_marked,
    {
        self.is_marked
    }

    /// Clears the mark; every other field is kept.
    pub fn unmark(&mut self)
        ensures
            *final(self) == (DirElem { is_marked: false, ..*old(self) }),
    {
        self.is_marked = false;
    }

    /// Hands out the name and path, consuming the entry.
    pub fn into_parts(self) -> (r: (String, String))
        ensures
            r.0 == self.name,
            r.1 == self.path,
    {
        (self.name, self.path)
    }
}

} // verus!

verus! {

impl DirElem {
    /// An owned copy, equal to the original.
    pub fn duplicate(&self) -> (r: DirElem)
        ensures
            r == *self,
    {
        DirElem {
            name: self.name.clone(),
            lowercase: self.lowercase.clone(),
            path: self.path.clone(),
            is_dir: self.is_dir,
            is_executable: self.is_executable,
            suffix: self.suffix.clone(),
            is_hidden: self.is_hidden,
            is_marked: self.is_marked,
        }
    }
}

} // verus!

verus! {

/// What the name column shows: the name padded with spaces to `width`, or
/// truncated on a character boundary with a `~` marker when it does not
/// fit. A zero-width column still shows the marker for a nonempty name.
pub open spec fn spec_display_name(name: Seq<char>, width: int) -> Seq<char> {
    if name.len() <= width {
        name + Seq::new((width - name.len()) as nat, |j: int| ' ')
    } else if width >= 1 {
        name.subrange(0, width - 1).push('~')
    } else {
        seq!['~']
    }
}

/// Fits a name into a display column of `width` characters, padding with
/// spaces or truncating safely with a marker. Never panics, and never
/// splits a character.
pub fn display_name(name: &str, width: usize) -> (r: String)
    ensures
        r@ == spec_display_name(name@, width as int),
{
    let n = name.unicode_len();
    if n <= width {
        let mut r = String::from_str(name);
        let mut i: usize = n;
        proof {
            assert(r@ =~= name@ + Seq::new(0, |j: int| ' '));
        }
        while i < width
            invariant
                n <= i <= width,
                n == name@.len(),
                r@ == name@ + Seq::new((i - n) as nat, |j: int| ' '),
            decreases width - i,
        {
            r.append(" ");
            proof {
                reveal_strlit(" ");
                assert(r@ =~= name@ + Seq::new((i + 1 - n) as nat, |j: int| ' '));
            }
            i = i + 1;
        }
        r
    } else if width >= 1 {
        let cut = name.substring_char(0, width - 1);
        let mut r = String::from_str(cut);
        r.append("~");
        proof {
            reveal_strlit("~");
            assert(r@ =~= name@.subrange(0, width as int - 1).push('~'));
        }
        r
    } else {
        let mut r = String::new();
        r.append("~");
        proof {
            reveal_strlit("~");
            assert(r@ =~= seq!['~']);
        }
        r
    }
}

} // verus!
