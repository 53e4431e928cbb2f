//! Validated names and paths, and the SHA-1 hash type.
use vstd::prelude::*;
use vstd::string::StringSliceAdditionalSpecFns;

verus! {

/// A character allowed in a clean name: `[A-Za-z0-9_.-]`.
pub open spec fn is_name_char(c: char) -> bool {
    ('a' <= c && c <= 'z') || ('A' <= c && c <= 'Z') || ('0' <= c && c <= '9') || c == '_' || c
        == '-' || c == '.'
}

/// A clean name is a non-empty string of name characters.
pub open spec fn is_clean_name(s: Seq<char>) -> bool {
    &&& s.len() > 0
    &&& forall|i: int| 0 <= i < s.len() ==> is_name_char(#[trigger] s[i])
}

/// A clean name (i.e. `[A-Za-z0-9_.-]+`).
#[derive(Debug)]
pub struct CleanName {
    name: String,
}

impl View for CleanName {
    type V = Seq<char>;

    closed spec fn view(&self) -> Seq<char> {
        self.name@
    }
}

impl CleanName {
    #[verifier::type_invariant]
    spec fn inv(self) -> bool {
        is_clean_name(self.name@)
    }

    pub fn as_str(&self) -> (r: &str)
        ensures
            r@ == self@,
            is_clean_name(r@),
    {
        proof {
            use_type_invariant(self);
        }
        self.name.as_str()
    }

    /// Builds a clean name, or hands the string back when it is not clean.
    pub fn new(path: String) -> (r: Result<Self, String>)
        ensures
            is_clean_name(path@) ==> r is Ok && r->Ok_0@ == path@,
            !is_clean_name(path@) ==> r is Err && r->Err_0@ == path@,
    {
        let n = path.as_str().unicode_len();
        let mut i: usize = 0;
        while i < n
            invariant
                n == path@.len(),
                i <= n,
                forall|j: int| 0 <= j < i ==> is_name_char(#[trigger] path@[j]),
            decreases n - i,
        {
            let c = path.as_str().get_char(i);
            let ok = ('a' <= c && c <= 'z') || ('A' <= c && c <= 'Z') || ('0' <= c && c <= '9')
                || c == '_' || c == '-' || c == '.';
            if !ok {
                return Err(path);
            }
            i = i + 1;
        }
        if n == 0 {
            return Err(path);
        }
        Ok(CleanName { name: path })
    }

    /// Builds a clean name from a string that the caller knows to be clean.
    pub fn from_static_str(path: &'static str) -> (r: Self)
        requires
            is_clean_name(path@),
        ensures
            r@ == path@,
    {
        CleanName { name: path.to_owned() }
    }

    /// Spec-level equality of two names, by their characters.
    pub fn equals(&self, other: &CleanName) -> (r: bool)
        ensures
            r == (self@ == other@),
    {
        self.name == other.name
    }
}

impl Clone for CleanName {
    fn clone(&self) -> (r: Self)
        ensures
            r@ == self@,
    {
        proof {
            use_type_invariant(self);
        }
        CleanName { name: self.name.clone() }
    }
}

impl PartialEq for CleanName {
    fn eq(&self, other: &CleanName) -> (r: bool) {
        self.name == other.name
    }
}

impl vstd::std_specs::cmp::PartialEqSpecImpl for CleanName {
    open spec fn obeys_eq_spec() -> bool {
        true
    }

    open spec fn eq_spec(&self, other: &CleanName) -> bool {
        self@ == other@
    }
}

impl Eq for CleanName {

}

/// The path with every backslash turned into a slash.
pub open spec fn normalize_separators(s: Seq<char>) -> Seq<char> {
    s.map_values(|c: char| if c == '\\' { '/' } else { c })
}

/// A `.` or `..` component starts at position `i` of `s`.
pub open spec fn dot_component_at(s: Seq<char>, i: int) -> bool {
    &&& 0 <= i < s.len()
    &&& i == 0 || s[i - 1] == '/'
    &&& s[i] == '.'
    &&& (i + 1 == s.len() || s[i + 1] == '/' || (s[i + 1] == '.' && (i + 2 == s.len() || s[i
        + 2] == '/')))
}

/// A clean path is relative (no leading `/`), not empty, and has no `.` or
/// `..` component.
pub open spec fn is_clean_path(s: Seq<char>) -> bool {
    &&& s.len() > 0
    &&& s[0] != '/'
    &&& forall|i: int| 0 <= i < s.len() ==> !#[trigger] dot_component_at(s, i)
}

/// A clean relative path (no `..` or `.` component, `/` separator only).
#[derive(Debug)]
pub struct CleanPath {
    path: String,
}

impl View for CleanPath {
    type V = Seq<char>;

    closed spec fn view(&self) -> Seq<char> {
        self.path@
    }
}

impl CleanPath {
    #[verifier::type_invariant]
    spec fn inv(self) -> bool {
        is_clean_path(self.path@)
    }

    pub fn as_str(&self) -> (r: &str)
        ensures
            r@ == self@,
            is_clean_path(r@),
    {
        proof {
            use_type_invariant(self);
        }
        self.path.as_str()
    }

    /// Builds a clean path: backslashes become slashes first, then the path
    /// is refused (and handed back, normalized) if it is empty, absolute, or has a `.`
    /// or `..` component.
    pub fn new(path: String) -> (r: Result<Self, String>)
        ensures
            is_clean_path(normalize_separators(path@)) ==> r is Ok && r->Ok_0@
                == normalize_separators(path@),
            !is_clean_path(normalize_separators(path@)) ==> r is Err && r->Err_0@
                == normalize_separators(path@),
    {
        let n = path.as_str().unicode_len();
        let mut out = String::new();
        let mut i: usize = 0;
        while i < n
            invariant
                n == path@.len(),
                i <= n,
                out@ == normalize_separators(path@).subrange(0, i as int),
            decreases n - i,
        {
            let c = path.as_str().get_char(i);
            if c == '\\' {
                let slash = "/";
                proof {
                    reveal_strlit("/");
                }
                out.append(slash);
            } else {
                out.append(path.as_str().substring_char(i, i + 1));
            }
            assert(out@ =~= normalize_separators(path@).subrange(0, i + 1));
            i = i + 1;
        }
        assert(out@ =~= normalize_separators(path@));
        let mut j: usize = 0;
        while j < n
            invariant
                n == out@.len(),
                out@ == normalize_separators(path@),
                j <= n,
                forall|k: int| 0 <= k < j ==> !#[trigger] dot_component_at(out@, k),
            decreases n - j,
        {
            let c = out.as_str().get_char(j);
            if c == '.' && (j == 0 || out.as_str().get_char(j - 1) == '/') {
                let dot = if j + 1 == n {
                    true
                } else {
                    let d = out.as_str().get_char(j + 1);
                    d == '/' || (d == '.' && (j + 2 == n || out.as_str().get_char(j + 2) == '/'))
                };
                if dot {
                    assert(dot_component_at(out@, j as int));
                    return Err(out);
                }
            }
            j = j + 1;
        }
        if n == 0 || out.as_str().get_char(0) == '/' {
            return Err(out);
        }
        Ok(CleanPath { path: out })
    }

    /// Builds a clean path from a string that the caller knows to be clean.
    pub fn from_static_str(path: &'static str) -> (r: Self)
        requires
            is_clean_path(path@),
        ensures
            r@ == path@,
    {
        CleanPath { path: path.to_owned() }
    }

    /// Equality of two paths, by their characters.
    pub fn equals(&self, other: &CleanPath) -> (r: bool)
        ensures
            r == (self@ == other@),
    {
        self.path == other.path
    }
}

impl Clone for CleanPath {
    fn clone(&self) -> (r: Self)
        ensures
            r@ == self@,
    {
        proof {
            use_type_invariant(self);
        }
        CleanPath { path: self.path.clone() }
    }
}

impl PartialEq for CleanPath {
    fn eq(&self, other: &CleanPath) -> (r: bool) {
        self.path == other.path
    }
}

impl vstd::std_specs::cmp::PartialEqSpecImpl for CleanPath {
    open spec fn obeys_eq_spec() -> bool {
        true
    }

    open spec fn eq_spec(&self, other: &CleanPath) -> bool {
        self@ == other@
    }
}

impl Eq for CleanPath {

}

/// True when a stored number is zero (such numbers are left out when written).
pub fn is_zero(value: &u64) -> (r: bool)
    ensures
        r == (*value == 0),
{
    *value == 0
}

/// The value of one hexadecimal digit (either case), if it is one.
pub open spec fn hex_value(c: u8) -> Option<u8> {
    if 65 <= c <= 70 {
        Some((c - 55) as u8)
    } else if 97 <= c <= 102 {
        Some((c - 87) as u8)
    } else if 48 <= c <= 57 {
        Some((c - 48) as u8)
    } else {
        None
    }
}

/// All `2 * n` bytes of `s` are hexadecimal digits.
pub open spec fn all_hex(s: Seq<u8>) -> bool {
    forall|i: int| 0 <= i < s.len() ==> (#[trigger] hex_value(s[i])) is Some
}

/// The byte that the digits at `2 * i` and `2 * i + 1` of `s` stand for.
pub open spec fn hex_byte(s: Seq<u8>, i: int) -> u8 {
    (hex_value(s[2 * i])->Some_0 * 16 + hex_value(s[2 * i + 1])->Some_0) as u8
}

/// The value of one hexadecimal digit, or an error for any other byte.
pub fn val(c: u8) -> (r: Result<u8, &'static str>)
    ensures
        hex_value(c) is Some ==> r == Ok::<u8, &'static str>(hex_value(c)->Some_0),
        hex_value(c) is None ==> r is Err,
{
    if 65 <= c && c <= 70 {
        Ok(c - 55)
    } else if 97 <= c && c <= 102 {
        Ok(c - 87)
    } else if 48 <= c && c <= 57 {
        Ok(c - 48)
    } else {
        Err("invalid hex char")
    }
}

/// The lowercase hexadecimal digit for `d` (below 16).
pub open spec fn hex_char(d: u8) -> char {
    if d == 0 {
        '0'
    } else if d == 1 {
        '1'
    } else if d == 2 {
        '2'
    } else if d == 3 {
        '3'
    } else if d == 4 {
        '4'
    } else if d == 5 {
        '5'
    } else if d == 6 {
        '6'
    } else if d == 7 {
        '7'
    } else if d == 8 {
        '8'
    } else if d == 9 {
        '9'
    } else if d == 10 {
        'a'
    } else if d == 11 {
        'b'
    } else if d == 12 {
        'c'
    } else if d == 13 {
        'd'
    } else if d == 14 {
        'e'
    } else {
        'f'
    }
}

/// The 2 lowercase hexadecimal digits of each byte, high digit first.
pub open spec fn hex_chars(h: Seq<u8>) -> Seq<char> {
    Seq::new(
        2 * h.len(),
        |k: int|
            if k % 2 == 0 {
                hex_char((h[k / 2] / 16) as u8)
            } else {
                hex_char((h[k / 2] % 16) as u8)
            },
    )
}

fn hex_digit_str(d: u8) -> (r: &'static str)
    requires
        d < 16,
    ensures
        r@ == seq![hex_char(d)],
{
    let r = {
        if d == 0 {
            let s = "0";
            proof {
                reveal_strlit("0");
            }
            s
        } else if d == 1 {
            let s = "1";
            proof {
                reveal_strlit("1");
            }
            s
        } else if d == 2 {
            let s = "2";
            proof {
                reveal_strlit("2");
            }
            s
        } else if d == 3 {
            let s = "3";
            proof {
                reveal_strlit("3");
            }
            s
        } else if d == 4 {
            let s = "4";
            proof {
                reveal_strlit("4");
            }
            s
        } else if d == 5 {
            let s = "5";
            proof {
                reveal_strlit("5");
            }
            s
        } else if d == 6 {
            let s = "6";
            proof {
                reveal_strlit("6");
            }
            s
        } else if d == 7 {
            let s = "7";
            proof {
                reveal_strlit("7");
            }
            s
        } else if d == 8 {
            let s = "8";
            proof {
                reveal_strlit("8");
            }
            s
        } else if d == 9 {
            let s = "9";
            proof {
                reveal_strlit("9");
            }
            s
        } else if d == 10 {
            let s = "a";
            proof {
                reveal_strlit("a");
            }
            s
        } else if d == 11 {
            let s = "b";
            proof {
                reveal_strlit("b");
            }
            s
        } else if d == 12 {
            let s = "c";
            proof {
                reveal_strlit("c");
            }
            s
        } else if d == 13 {
            let s = "d";
            proof {
                reveal_strlit("d");
            }
            s
        } else if d == 14 {
            let s = "e";
            proof {
                reveal_strlit("e");
            }
            s
        } else {
            let s = "f";
            proof {
                reveal_strlit("f");
            }
            s
        }
    };
    assert(r@ =~= seq![hex_char(d)]);
    r
}

proof fn lemma_hex_char_value(d: u8)
    requires
        d < 16,
    ensures
        '\0' <= hex_char(d) <= '\u{7f}',
        hex_value(hex_char(d) as u8) == Some(d),
{
}

/// Writing a hash in hexadecimal and reading it back gives the hash:
/// `from_hex` accepts the digits of `to_hex` and reads every byte back.
pub proof fn lemma_hex_round_trip(h: Seq<u8>, s: &str)
    requires
        h.len() == 20,
        s@ == hex_chars(h),
    ensures
        s.spec_bytes().len() == 40,
        all_hex(s.spec_bytes()),
        forall|i: int| 0 <= i < 20 ==> hex_byte(s.spec_bytes(), i) == h[i],
{
    assert forall|k: int| 0 <= k < s@.len() implies '\0' <= #[trigger] s@[k] <= '\u{7f}' by {
        lemma_hex_char_value((h[k / 2] / 16) as u8);
        lemma_hex_char_value((h[k / 2] % 16) as u8);
    }
    assert(vstd::string::is_ascii(s));
    vstd::string::is_ascii_spec_bytes(s);
    let b = s.spec_bytes();
    assert forall|k: int| 0 <= k < b.len() implies (#[trigger] hex_value(b[k])) is Some by {
        lemma_hex_char_value((h[k / 2] / 16) as u8);
        lemma_hex_char_value((h[k / 2] % 16) as u8);
    }
    assert forall|i: int| 0 <= i < 20 implies hex_byte(b, i) == h[i] by {
        lemma_hex_char_value((h[i] / 16) as u8);
        lemma_hex_char_value((h[i] % 16) as u8);
        assert((2 * i) / 2 == i);
        assert((2 * i + 1) / 2 == i);
        assert(b[2 * i] == hex_char((h[i] / 16) as u8) as u8);
        assert(b[2 * i + 1] == hex_char((h[i] % 16) as u8) as u8);
    }
}

/// What `sha1::Sha1::digest` returns for the given bytes.
pub uninterp spec fn sha1_of(data: Seq<u8>) -> Seq<u8>;

/// Relies on `sha1::Sha1::digest` (through the `Digest` trait): the SHA-1 of
/// the bytes, which depends on the bytes alone.
#[verifier::external_body]
fn sha1_digest(buf: &[u8]) -> (r: [u8; 20])
    ensures
        r@ == sha1_of(buf@),
{
    <sha1::Sha1 as sha1::Digest>::digest(buf).into()
}

/// A SHA-1 hash
#[derive(Debug)]
pub struct Sha1Hash {
    hash: [u8; 20],
}

impl View for Sha1Hash {
    type V = Seq<u8>;

    closed spec fn view(&self) -> Seq<u8> {
        self.hash@
    }
}

impl Sha1Hash {
    pub fn new(hash: [u8; 20]) -> (r: Self)
        ensures
            r@ == hash@,
    {
        Sha1Hash { hash }
    }

    /// The SHA-1 of some bytes.
    pub fn digest(buf: &[u8]) -> (r: Self)
        ensures
            r@ == sha1_of(buf@),
    {
        Sha1Hash { hash: sha1_digest(buf) }
    }

    /// The 20 bytes of the hash.
    pub fn bytes(&self) -> (r: [u8; 20])
        ensures
            r@ == self@,
    {
        self.hash
    }

    /// Parses 40 hexadecimal digits (either case).
    pub fn from_hex(hex: &str) -> (r: Result<Self, &'static str>)
        ensures
            r is Ok <==> hex.spec_bytes().len() == 40 && all_hex(hex.spec_bytes()),
            r is Ok ==> r->Ok_0@.len() == 20 && forall|i: int|
                0 <= i < 20 ==> r->Ok_0@[i] == hex_byte(hex.spec_bytes(), i),
    {
        let b = hex.as_bytes();
        if b.len() != 40 {
            return Err("invalid string length");
        }
        let mut hash = [0u8;20];
        let mut i: usize = 0;
        while i < 20
            invariant
                b@ == hex.spec_bytes(),
                b@.len() == 40,
                i <= 20,
                hash@.len() == 20,
                forall|k: int| 0 <= k < 2 * i ==> (#[trigger] hex_value(b@[k])) is Some,
                forall|k: int| 0 <= k < i ==> hash@[k] == hex_byte(b@, k),
            decreases 20 - i,
        {
            let hi = match val(b[2 * i]) {
                Ok(v) => v,
                Err(e) => {
                    assert(!all_hex(b@)) by {
                        assert(hex_value(b@[2 * i as int]) is None);
                    }
                    return Err(e);
                },
            };
            let lo = match val(b[2 * i + 1]) {
                Ok(v) => v,
                Err(e) => {
                    assert(!all_hex(b@)) by {
                        assert(hex_value(b@[2 * i + 1]) is None);
                    }
                    return Err(e);
                },
            };
            hash[i] = hi * 16 + lo;
            i = i + 1;
        }
        Ok(Sha1Hash { hash })
    }

    /// The hash as 40 lowercase hexadecimal digits.
    pub fn to_hex(&self) -> (r: String)
        ensures
            r@ == hex_chars(self@),
    {
        let mut out = String::new();
        let mut i: usize = 0;
        while i < 20
            invariant
                i <= 20,
                self.hash@.len() == 20,
                out@.len() == 2 * i,
                forall|k: int| 0 <= k < 2 * i ==> out@[k] == #[trigger] hex_chars(self.hash@)[k],
            decreases 20 - i,
        {
            let b = self.hash[i];
            let ghost prev = out@;
            out.append(hex_digit_str(b / 16));
            out.append(hex_digit_str(b % 16));
            proof {
                assert forall|k: int| 0 <= k < 2 * i + 2 implies out@[k] == #[trigger] hex_chars(
                    self.hash@,
                )[k] by {
                    if k < 2 * i {
                        assert(out@[k] == prev[k]);
                    } else if k == 2 * i {
                        assert(k / 2 == i);
                    } else {
                        assert(k / 2 == i);
                    }
                }
            }
            i = i + 1;
        }
        assert(out@ =~= hex_chars(self.hash@));
        out
    }

    /// Equality of two hashes, byte by byte.
    pub fn equals(&self, other: &Sha1Hash) -> (r: bool)
        ensures
            r == (self@ == other@),
    {
        let mut i: usize = 0;
        while i < 20
            invariant
                i <= 20,
                forall|k: int| 0 <= k < i ==> self.hash@[k] == other.hash@[k],
            decreases 20 - i,
        {
            if self.hash[i] != other.hash[i] {
                return false;
            }
            i = i + 1;
        }
        assert(self.hash@ =~= other.hash@);
        true
    }
}

impl Clone for Sha1Hash {
    fn clone(&self) -> (r: Self)
        ensures
            r@ == self@,
    {
        Sha1Hash { hash: self.hash }
    }
}

impl PartialEq for Sha1Hash {
    fn eq(&self, other: &Sha1Hash) -> (r: bool) {
        self.equals(other)
    }
}

impl vstd::std_specs::cmp::PartialEqSpecImpl for Sha1Hash {
    open spec fn obeys_eq_spec() -> bool {
        true
    }

    open spec fn eq_spec(&self, other: &Sha1Hash) -> bool {
        self@ == other@
    }
}

impl Eq for Sha1Hash {

}

} // verus!
