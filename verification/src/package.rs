//! References to script packages.

use crate::text::{chars_of, str_eq, string_of_range};
use crate::value::{ScriptValue, ScriptView};
use vstd::prelude::*;
use vstd::string::*;

verus! {

/// Whether `c` may stand in a name: an ASCII letter, a digit or an underscore.
pub open spec fn is_word_char(c: char) -> bool {
    ('a' <= c && c <= 'z') || ('A' <= c && c <= 'Z') || ('0' <= c && c <= '9') || c == '_'
}

/// Whether `s` is a name: at least one character, each of them a word character.
pub open spec fn is_word(s: Seq<char>) -> bool {
    s.len() > 0 && forall|i: int| 0 <= i < s.len() ==> is_word_char(#[trigger] s[i])
}

/// The first position at or after `from` that holds no word character, or the
/// length of `s` when there is none.
pub open spec fn word_end(s: Seq<char>, from: int) -> int
    decreases s.len() - from,
{
    if 0 <= from < s.len() && is_word_char(s[from]) {
        word_end(s, from + 1)
    } else {
        from
    }
}

/// The mathematical content of a package reference.
pub struct PackageView {
    pub user: Seq<char>,
    pub repo: Option<Seq<char>>,
    pub package: Seq<char>,
}

/// Whether each part of a reference is a name.
pub open spec fn well_formed(p: PackageView) -> bool {
    &&& is_word(p.user)
    &&& is_word(p.package)
    &&& p.repo is Some ==> is_word(p.repo->0)
}

/// The written form of a package root: the user, then `/` and the repository
/// where there is one.
pub open spec fn root_text(p: PackageView) -> Seq<char> {
    match p.repo {
        None => p.user,
        Some(r) => p.user + seq!['/'] + r,
    }
}

/// The written form of a reference: its root, a dot and the package.
pub open spec fn reference_text(p: PackageView) -> Seq<char> {
    root_text(p) + seq!['.'] + p.package
}

/// The reference that a text stands for, if it is written as
/// `user.package` or `user/repo.package`, each part a name.
pub open spec fn parse_reference(s: Seq<char>) -> Option<PackageView> {
    let a = word_end(s, 0);
    if a == 0 || a >= s.len() {
        None
    } else if s[a] == '.' {
        let b = word_end(s, a + 1);
        if b == s.len() && b > a + 1 {
            Some(
                PackageView {
                    user: s.subrange(0, a),
                    repo: None,
                    package: s.subrange(a + 1, s.len() as int),
                },
            )
        } else {
            None
        }
    } else if s[a] == '/' {
        let b = word_end(s, a + 1);
        if b > a + 1 && b < s.len() && s[b] == '.' {
            let c = word_end(s, b + 1);
            if c == s.len() && c > b + 1 {
                Some(
                    PackageView {
                        user: s.subrange(0, a),
                        repo: Some(s.subrange(a + 1, b)),
                        package: s.subrange(b + 1, s.len() as int),
                    },
                )
            } else {
                None
            }
        } else {
            None
        }
    } else {
        None
    }
}

/// Between `from` and `word_end(s, from)` stand word characters only, and the
/// scan stops inside the text.
pub proof fn lemma_word_end_bounds(s: Seq<char>, from: int)
    requires
        0 <= from <= s.len(),
    ensures
        from <= word_end(s, from) <= s.len(),
        forall|i: int| from <= i < word_end(s, from) ==> is_word_char(#[trigger] s[i]),
        word_end(s, from) < s.len() ==> !is_word_char(s[word_end(s, from)]),
    decreases s.len() - from,
{
    if from < s.len() && is_word_char(s[from]) {
        lemma_word_end_bounds(s, from + 1);
    }
}

/// A run of word characters that is followed by another character, or by the
/// end of the text, is where the scan stops.
pub proof fn lemma_word_end_is(s: Seq<char>, from: int, to: int)
    requires
        0 <= from <= to <= s.len(),
        forall|i: int| from <= i < to ==> is_word_char(#[trigger] s[i]),
        to < s.len() ==> !is_word_char(s[to]),
    ensures
        word_end(s, from) == to,
    decreases to - from,
{
    if from < to {
        lemma_word_end_is(s, from + 1, to);
    }
}

/// What is read from a text is well formed and is written as that text.
pub proof fn lemma_parse_sound(s: Seq<char>)
    requires
        parse_reference(s) is Some,
    ensures
        well_formed(parse_reference(s)->0),
        reference_text(parse_reference(s)->0) == s,
{
    let p = parse_reference(s)->0;
    let a = word_end(s, 0);
    lemma_word_end_bounds(s, 0);
    lemma_word_end_bounds(s, a + 1);
    if s[a] == '.' {
        assert(reference_text(p) =~= s);
    } else {
        let b = word_end(s, a + 1);
        lemma_word_end_bounds(s, b + 1);
        assert(reference_text(p) =~= s);
    }
}

/// The written form of a well-formed reference reads back as that reference.
pub proof fn lemma_parse_complete(p: PackageView)
    requires
        well_formed(p),
    ensures
        parse_reference(reference_text(p)) == Some(p),
{
    let s = reference_text(p);
    let a = p.user.len() as int;
    match p.repo {
        None => {
            assert(s =~= p.user + seq!['.'] + p.package);
            assert forall|i: int| 0 <= i < a implies is_word_char(#[trigger] s[i]) by {
                assert(s[i] == p.user[i]);
            }
            assert(s[a] == '.');
            lemma_word_end_is(s, 0, a);
            assert forall|i: int| a + 1 <= i < s.len() implies is_word_char(#[trigger] s[i]) by {
                assert(s[i] == p.package[i - a - 1]);
            }
            lemma_word_end_is(s, a + 1, s.len() as int);
            assert(s.subrange(0, a) =~= p.user);
            assert(s.subrange(a + 1, s.len() as int) =~= p.package);
        },
        Some(r) => {
            let b = a + 1 + r.len();
            assert(s =~= p.user + seq!['/'] + r + seq!['.'] + p.package);
            assert forall|i: int| 0 <= i < a implies is_word_char(#[trigger] s[i]) by {
                assert(s[i] == p.user[i]);
            }
            assert(s[a] == '/');
            lemma_word_end_is(s, 0, a);
            assert forall|i: int| a + 1 <= i < b implies is_word_char(#[trigger] s[i]) by {
                assert(s[i] == r[i - a - 1]);
            }
            assert(s[b] == '.');
            lemma_word_end_is(s, a + 1, b);
            assert forall|i: int| b + 1 <= i < s.len() implies is_word_char(#[trigger] s[i]) by {
                assert(s[i] == p.package[i - b - 1]);
            }
            lemma_word_end_is(s, b + 1, s.len() as int);
            assert(s.subrange(0, a) =~= p.user);
            assert(s.subrange(a + 1, b) =~= r);
            assert(s.subrange(b + 1, s.len() as int) =~= p.package);
        },
    }
}

/// A text stands for a reference exactly when it is the written form of a
/// well-formed one.
pub proof fn lemma_parse_characterised(s: Seq<char>, p: PackageView)
    ensures
        parse_reference(s) == Some(p) <==> (well_formed(p) && reference_text(p) == s),
{
    if parse_reference(s) == Some(p) {
        lemma_parse_sound(s);
    }
    if well_formed(p) && reference_text(p) == s {
        lemma_parse_complete(p);
    }
}


/// Why a text is not a package reference.
#[derive(Debug, PartialEq, Eq, Clone, Copy, Structural)]
pub enum PackageError {
    /// The text is not written as `user.package` or `user/repo.package`.
    InvalidReference,
    /// The value is not a string.
    NotAString,
}

/// The package that a script value stands for.
pub open spec fn package_of_script(v: ScriptView) -> Result<PackageView, PackageError> {
    match v {
        ScriptView::String(s) => match parse_reference(s) {
            Some(p) => Ok(p),
            None => Err(PackageError::InvalidReference),
        },
        _ => Err(PackageError::NotAString),
    }
}

/// A script package that can be loaded, from the system's files or from what
/// users have written into the world: `system.foo` is package `foo` of the
/// system, `jder/live.foo` is package `foo` in the live repository of user `jder`.
///
/// What stands before the dot is the package root.
#[derive(Debug, PartialEq, Eq, Hash)]
pub struct PackageReference {
    user: String,
    repo: Option<String>,
    package: String,
}

impl View for PackageReference {
    type V = PackageView;

    closed spec fn view(&self) -> PackageView {
        PackageView {
            user: self.user@,
            repo: match self.repo {
                Some(r) => Some(r@),
                None => None,
            },
            package: self.package@,
        }
    }
}

impl Clone for PackageReference {
    fn clone(&self) -> (r: PackageReference)
        ensures
            r@ == self@,
    {
        self.duplicate()
    }
}

/// Whether `c` may stand in a name.
fn word_char(c: char) -> (r: bool)
    ensures
        r == is_word_char(c),
{
    ('a' <= c && c <= 'z') || ('A' <= c && c <= 'Z') || ('0' <= c && c <= '9') || c == '_'
}

/// Scans over word characters from `from` on.
fn scan_word(v: &Vec<char>, from: usize) -> (r: usize)
    requires
        from <= v.len(),
    ensures
        r == word_end(v@, from as int),
        from <= r <= v.len(),
{
    let mut i: usize = from;
    while i < v.len() && word_char(v[i])
        invariant
            from <= i <= v.len(),
            word_end(v@, from as int) == word_end(v@, i as int),
        decreases v.len() - i,
    {
        i += 1;
    }
    i
}

/// Whether a string is a name.
pub fn is_name(s: &str) -> (r: bool)
    ensures
        r == is_word(s@),
{
    let v = chars_of(s);
    let end = scan_word(&v, 0);
    proof {
        lemma_word_end_bounds(v@, 0);
    }
    v.len() > 0 && end == v.len()
}

impl PackageReference {
    /// Every reference is well formed.
    #[verifier::type_invariant]
    pub open spec fn inv(&self) -> bool {
        well_formed(self@)
    }

    /// Reads a reference written as `user.package` or `user/repo.package`.
    pub fn new(name: &str) -> (r: Result<PackageReference, PackageError>)
        ensures
            match r {
                Ok(p) => parse_reference(name@) == Some(p@),
                Err(e) => parse_reference(name@) is None && e == PackageError::InvalidReference,
            },
    {
        let v = chars_of(name);
        let n = v.len();
        let a = scan_word(&v, 0);
        if a == 0 || a >= n {
            return Err(PackageError::InvalidReference);
        }
        proof {
            lemma_word_end_bounds(v@, 0);
            lemma_word_end_bounds(v@, a + 1);
        }
        if v[a] == '.' {
            let b = scan_word(&v, a + 1);
            if b == n && b > a + 1 {
                proof {
                    lemma_parse_sound(v@);
                }
                Ok(
                    PackageReference {
                        user: string_of_range(&v, 0, a),
                        repo: None,
                        package: string_of_range(&v, a + 1, n),
                    },
                )
            } else {
                Err(PackageError::InvalidReference)
            }
        } else if v[a] == '/' {
            let b = scan_word(&v, a + 1);
            if b > a + 1 && b < n && v[b] == '.' {
                let c = scan_word(&v, b + 1);
                if c == n && c > b + 1 {
                    proof {
                        lemma_parse_sound(v@);
                    }
                    Ok(
                        PackageReference {
                            user: string_of_range(&v, 0, a),
                            repo: Some(string_of_range(&v, a + 1, b)),
                            package: string_of_range(&v, b + 1, n),
                        },
                    )
                } else {
                    Err(PackageError::InvalidReference)
                }
            } else {
                Err(PackageError::InvalidReference)
            }
        } else {
            Err(PackageError::InvalidReference)
        }
    }

    /// The user who owns the package.
    pub fn user(&self) -> (r: &str)
        ensures
            r@ == self@.user,
    {
        self.user.as_str()
    }

    /// The repository, where the reference names one.
    pub fn repo(&self) -> (r: Option<&str>)
        ensures
            match r {
                Some(s) => self@.repo == Some(s@),
                None => self@.repo is None,
            },
    {
        match &self.repo {
            Some(s) => Some(s.as_str()),
            None => None,
        }
    }

    /// The package's name within its root.
    pub fn package(&self) -> (r: &str)
        ensures
            r@ == self@.package,
    {
        self.package.as_str()
    }

    /// The package that defines how the user `username` behaves: `user` in
    /// that user's live repository.
    pub fn for_user(username: &str) -> (r: PackageReference)
        requires
            is_word(username@),
        ensures
            r@ == (PackageView { user: username@, repo: Some("live"@), package: "user"@ }),
    {
        proof {
            reveal_strlit("live");
            reveal_strlit("user");
        }
        PackageReference {
            user: String::from_str(username),
            repo: Some(String::from_str("live")),
            package: String::from_str("user"),
        }
    }

    /// The system package that defines how rooms behave.
    pub fn for_room() -> (r: PackageReference)
        ensures
            r@ == (PackageView { user: "system"@, repo: None, package: "room"@ }),
    {
        proof {
            reveal_strlit("system");
            reveal_strlit("room");
        }
        PackageReference {
            user: String::from_str("system"),
            repo: None,
            package: String::from_str("room"),
        }
    }

    /// The system package called `name`, if `name` is a name.
    pub fn for_system(name: &str) -> (r: Result<PackageReference, PackageError>)
        ensures
            match r {
                Ok(p) => is_word(name@) && p@ == (PackageView {
                    user: "system"@,
                    repo: None,
                    package: name@,
                }),
                Err(e) => !is_word(name@) && e == PackageError::InvalidReference,
            },
    {
        if is_name(name) {
            proof {
                reveal_strlit("system");
            }
            Ok(
                PackageReference {
                    user: String::from_str("system"),
                    repo: None,
                    package: String::from_str(name),
                },
            )
        } else {
            Err(PackageError::InvalidReference)
        }
    }

    /// The system package that every interpreter loads first.
    pub fn main_package() -> (r: PackageReference)
        ensures
            r@ == (PackageView { user: "system"@, repo: None, package: "main"@ }),
    {
        proof {
            reveal_strlit("system");
            reveal_strlit("main");
        }
        PackageReference {
            user: String::from_str("system"),
            repo: None,
            package: String::from_str("main"),
        }
    }

    /// The written form of the package root.
    pub fn package_root(&self) -> (r: String)
        ensures
            r@ == root_text(self@),
    {
        let mut result = self.user.clone();
        match &self.repo {
            Some(r) => {
                proof {
                    reveal_strlit("/");
                }
                result.append("/");
                result.append(r.as_str());
                assert("/"@ =~= seq!['/']);
            },
            None => {},
        }
        result
    }

    /// The root of the packages that come with the system.
    pub fn system_package_root() -> (r: &'static str)
        ensures
            r@ == "system"@,
    {
        "system"
    }

    /// Whether the package lives in the world, where its owner can edit it.
    pub fn is_live_package(&self) -> (r: bool)
        ensures
            r == (self@.repo == Some("live"@)),
    {
        match &self.repo {
            Some(r) => str_eq(r.as_str(), "live"),
            None => false,
        }
    }

    /// Whether the package is one of those that come with the system.
    pub fn is_system_package(&self) -> (r: bool)
        ensures
            r == (root_text(self@) == "system"@),
    {
        let root = self.package_root();
        str_eq(root.as_str(), "system")
    }

    /// The written form of the reference, which reads back as the reference.
    pub fn to_string(&self) -> (r: String)
        ensures
            r@ == reference_text(self@),
            parse_reference(r@) == Some(self@),
    {
        let mut result = self.package_root();
        proof {
            use_type_invariant(self);
            lemma_parse_complete(self@);
            reveal_strlit(".");
        }
        result.append(".");
        result.append(self.package.as_str());
        assert("."@ =~= seq!['.']);
        result
    }

    /// Whether two references name the same package.
    pub fn same_as(&self, other: &PackageReference) -> (r: bool)
        ensures
            r == (self@ == other@),
    {
        let repos = match (&self.repo, &other.repo) {
            (Some(a), Some(b)) => str_eq(a.as_str(), b.as_str()),
            (None, None) => true,
            _ => false,
        };
        str_eq(self.user.as_str(), other.user.as_str()) && repos && str_eq(
            self.package.as_str(),
            other.package.as_str(),
        )
    }

    /// A copy that names the same package.
    pub fn duplicate(&self) -> (r: PackageReference)
        ensures
            r@ == self@,
    {
        proof {
            use_type_invariant(self);
        }
        PackageReference {
            user: self.user.clone(),
            repo: match &self.repo {
                Some(r) => Some(r.clone()),
                None => None,
            },
            package: self.package.clone(),
        }
    }

    /// Reads a reference from a value that a script handed over.
    pub fn from_script(v: &ScriptValue) -> (r: Result<PackageReference, PackageError>)
        ensures
            match r {
                Ok(p) => package_of_script(v@) == Ok::<PackageView, PackageError>(p@),
                Err(e) => package_of_script(v@) == Err::<PackageView, PackageError>(e),
            },
    {
        match v {
            ScriptValue::String(s) => PackageReference::new(s.as_str()),
            _ => Err(PackageError::NotAString),
        }
    }

    /// The reference as a script receives it: its written form, as a string.
    pub fn to_script(&self) -> (r: ScriptValue)
        ensures
            r@ == ScriptView::String(reference_text(self@)),
    {
        ScriptValue::String(self.to_string())
    }
}

/// What is said of a text that is no package reference.
pub open spec fn package_error_text(e: PackageError) -> Seq<char> {
    match e {
        PackageError::InvalidReference => "invalid object kind"@,
        PackageError::NotAString => "Expected a string for an object kind"@,
    }
}

impl PackageError {
    /// What is said of the error.
    pub fn to_string(&self) -> (r: String)
        ensures
            r@ == package_error_text(*self),
    {
        match self {
            PackageError::InvalidReference => String::from_str("invalid object kind"),
            PackageError::NotAString => String::from_str("Expected a string for an object kind"),
        }
    }
}

} // verus!
