//! Coder options: `name:opt=value;opt2=value2;...` strings that configure a
//! compressor or a patcher.
use std::ops::RangeInclusive;
use vstd::prelude::*;
use vstd::std_specs::range::ContainsSpec;
use vstd::string::StrSliceExecFns;

verus! {

/// Index of the first `c` in `s`.
pub open spec fn first_index(s: Seq<char>, c: char) -> Option<int> {
    if exists|i: int| 0 <= i < s.len() && s[i] == c && forall|j: int| 0 <= j < i ==> s[j] != c {
        Some(choose|i: int| 0 <= i < s.len() && s[i] == c && forall|j: int| 0 <= j < i ==> s[j] != c)
    } else {
        None
    }
}

/// `s` cut at its first `c`: what comes before and what comes after.
pub open spec fn split_once(s: Seq<char>, c: char) -> Option<(Seq<char>, Seq<char>)> {
    match first_index(s, c) {
        Some(i) => Some((s.subrange(0, i), s.subrange(i + 1, s.len() as int))),
        None => None,
    }
}

/// `s` cut at every `c`.
pub open spec fn split_all(s: Seq<char>, c: char) -> Seq<Seq<char>>
    decreases s.len(),
{
    match first_index(s, c) {
        Some(i) => if 0 <= i < s.len() {
            seq![s.subrange(0, i)] + split_all(s.subrange(i + 1, s.len() as int), c)
        } else {
            seq![s]
        },
        None => seq![s],
    }
}

proof fn lemma_first_index_range(s: Seq<char>, c: char)
    ensures
        first_index(s, c) matches Some(i) ==> 0 <= i < s.len() && s[i] == c && forall|j: int|
            0 <= j < i ==> s[j] != c,
{
}

proof fn lemma_first_index_at(s: Seq<char>, c: char, i: int)
    requires
        0 <= i < s.len(),
        s[i] == c,
        forall|j: int| 0 <= j < i ==> s[j] != c,
    ensures
        first_index(s, c) == Some(i),
{
    let k = choose|k: int| 0 <= k < s.len() && s[k] == c && forall|j: int| 0 <= j < k ==> s[j] != c;
    assert(!(k < i));
    assert(!(k > i));
}

proof fn lemma_split_all_step(s: Seq<char>, c: char)
    ensures
        split_all(s, c) == match split_once(s, c) {
            Some((a, b)) => seq![a] + split_all(b, c),
            None => seq![s],
        },
{
    lemma_first_index_range(s, c);
}

/// One option: `name=value`, or a bare value whose name is empty.
pub open spec fn option_pair(o: Seq<char>) -> (Seq<char>, Seq<char>) {
    match split_once(o, '=') {
        Some((n, v)) => (n, v),
        None => (Seq::empty(), o),
    }
}

/// The coder name of an option string.
pub open spec fn coder_name(s: Seq<char>) -> Seq<char> {
    match split_once(s, ':') {
        Some((n, _)) => n,
        None => s,
    }
}

/// The options of an option string, in order; empty ones are skipped.
pub open spec fn coder_pairs(s: Seq<char>) -> Seq<(Seq<char>, Seq<char>)> {
    let rest = match split_once(s, ':') {
        Some((_, r)) => r,
        None => Seq::empty(),
    };
    split_all(rest, ';').filter(|o: Seq<char>| o.len() > 0).map_values(
        |o: Seq<char>| option_pair(o),
    )
}

/// The value of option `key`: the last one given wins.
pub open spec fn lookup(pairs: Seq<(Seq<char>, Seq<char>)>, key: Seq<char>) -> Option<Seq<char>>
    decreases pairs.len(),
{
    if pairs.len() == 0 {
        None
    } else if pairs.last().0 == key {
        Some(pairs.last().1)
    } else {
        lookup(pairs.drop_last(), key)
    }
}

/// The value of the first of `names` that is given.
pub open spec fn lookup_first(pairs: Seq<(Seq<char>, Seq<char>)>, names: Seq<Seq<char>>) -> Option<
    Seq<char>,
>
    decreases names.len(),
{
    if names.len() == 0 {
        None
    } else {
        match lookup(pairs, names[0]) {
            Some(v) => Some(v),
            None => lookup_first(pairs, names.drop_first()),
        }
    }
}

/// A decimal digit's value.
pub open spec fn digit(c: char) -> nat {
    (c as u32 - '0' as u32) as nat
}

pub open spec fn is_digit(c: char) -> bool {
    '0' <= c && c <= '9'
}

/// The value of a string of decimal digits.
pub open spec fn decimal(s: Seq<char>) -> nat
    decreases s.len(),
{
    if s.len() == 0 {
        0
    } else {
        decimal(s.drop_last()) * 10 + digit(s.last())
    }
}

/// The digits of a number: what follows an optional leading `+`.
pub open spec fn unsigned_digits(s: Seq<char>) -> Seq<char> {
    if s.len() > 0 && s[0] == '+' {
        s.drop_first()
    } else {
        s
    }
}

/// The number an unsigned integer's `from_str` reads: an optional `+`, then
/// one or more decimal digits.
pub open spec fn number_of(s: Seq<char>) -> Option<nat> {
    let d = unsigned_digits(s);
    if d.len() > 0 && forall|i: int| 0 <= i < d.len() ==> is_digit(#[trigger] d[i]) {
        Some(decimal(d))
    } else {
        None
    }
}

/// What `byte_unit::Byte::from_str(s).get_bytes()` reads from `s`, if it
/// reads anything.
pub uninterp spec fn byte_size_of(s: Seq<char>) -> Option<u64>;

/// Relies on `byte_unit::Byte::from_str` and `Byte::get_bytes` (4.x, without
/// the `u128` feature): the size a string such as `10`, `10 KB` or `2.5MiB`
/// stands for, which depends on the string alone.
#[verifier::external_body]
fn parse_byte_size(s: &str) -> (r: Option<u64>)
    ensures
        r == byte_size_of(s@),
{
    match byte_unit::Byte::from_str(s) {
        Ok(b) => Some(b.get_bytes()),
        Err(_) => None,
    }
}

proof fn lemma_decimal_prefix_le(s: Seq<char>, j: int)
    requires
        0 <= j <= s.len(),
    ensures
        decimal(s.subrange(0, j)) <= decimal(s),
    decreases s.len() - j,
{
    if j < s.len() {
        lemma_decimal_prefix_le(s, j + 1);
        assert(s.subrange(0, j + 1).drop_last() =~= s.subrange(0, j));
    } else {
        assert(s.subrange(0, j) =~= s);
    }
}

/// Reads an unsigned decimal number as an unsigned integer's `from_str`
/// does; `None` if it is not one or does not fit in `max`.
fn parse_number(s: &str, max: u64) -> (r: Option<u64>)
    ensures
        match number_of(s@) {
            Some(v) => if v <= max {
                r == Some(v as u64)
            } else {
                r is None
            },
            None => r is None,
        },
{
    let n = s.unicode_len();
    let mut i: usize = 0;
    if n > 0 && s.get_char(0) == '+' {
        i = 1;
    }
    let ghost d = unsigned_digits(s@);
    let first = i;
    if first == n {
        return None;
    }
    assert(d =~= s@.subrange(first as int, n as int));
    assert(d.subrange(0, 0) =~= Seq::<char>::empty());
    let mut acc: u64 = 0;
    while i < n
        invariant
            n == s@.len(),
            first <= i <= n,
            first < n,
            d == unsigned_digits(s@),
            d == s@.subrange(first as int, n as int),
            forall|k: int| 0 <= k < i - first ==> is_digit(#[trigger] d[k]),
            acc == decimal(d.subrange(0, i - first)),
            acc <= max,
        decreases n - i,
    {
        let c = s.get_char(i);
        if !('0' <= c && c <= '9') {
            assert(!is_digit(d[i - first]));
            return None;
        }
        let v = (c as u32 - '0' as u32) as u64;
        assert(d.subrange(0, i + 1 - first).drop_last() =~= d.subrange(0, i - first));
        assert(d.subrange(0, i + 1 - first).last() == c);
        assert(decimal(d.subrange(0, i + 1 - first)) == acc * 10 + v);
        let next = match acc.checked_mul(10) {
            Some(m) => m.checked_add(v),
            None => None,
        };
        let fits = match next {
            Some(x) => x <= max,
            None => false,
        };
        if !fits {
            proof {
                let k: int = i + 1 - first;
                assert(decimal(d.subrange(0, k)) > max);
                if number_of(s@) is Some {
                    lemma_decimal_prefix_le(d, k);
                }
            }
            return None;
        }
        acc = match next {
            Some(x) => x,
            None => acc,
        };
        i = i + 1;
    }
    assert(d.subrange(0, n - first) =~= d);
    assert(number_of(s@) == Some(decimal(d)));
    Some(acc)
}

/// A coder name with its options, e.g. `zstd:level=19` or `brotli:9;lgwin=22`.
#[derive(Debug)]
pub struct CoderOptions {
    name: String,
    options: Vec<(String, String)>,
}

/// Why an option has no usable value.
#[derive(Debug, Clone, Copy, PartialEq, Eq, Structural)]
pub enum OptionError {
    NotU32,
    NotU64,
    NotSize,
    NotInRange,
}

/// Views of option pairs.
pub open spec fn pair_views(v: Seq<(String, String)>) -> Seq<(Seq<char>, Seq<char>)> {
    v.map_values(|p: (String, String)| (p.0@, p.1@))
}

impl CoderOptions {
    pub closed spec fn spec_name(&self) -> Seq<char> {
        self.name@
    }

    pub closed spec fn spec_pairs(&self) -> Seq<(Seq<char>, Seq<char>)> {
        pair_views(self.options@)
    }

    /// A coder without options.
    pub fn new(name: String) -> (r: Self)
        ensures
            r.spec_name() == name@,
            r.spec_pairs().len() == 0,
    {
        CoderOptions { name, options: Vec::new() }
    }

    pub fn name(&self) -> (r: &str)
        ensures
            r@ == self.spec_name(),
    {
        self.name.as_str()
    }

    /// Parses `name:opt=value;opt2=value2;...`. Every string parses.
    pub fn from_str(s: &str) -> (r: Result<Self, OptionError>)
        ensures
            r is Ok,
            r->Ok_0.spec_name() == coder_name(s@),
            r->Ok_0.spec_pairs() == coder_pairs(s@),
    {
        let (name, rest) = match cut_once(s, ':') {
            Some((a, b)) => (a, b),
            None => {
                let e = "";
                proof {
                    reveal_strlit("");
                }
                (s, e)
            },
        };
        assert(rest@ == match split_once(s@, ':') {
            Some((_, r)) => r,
            None => Seq::<char>::empty(),
        });
        let ghost pieces = split_all(rest@, ';');
        let ghost kept = pieces.filter(|o: Seq<char>| o.len() > 0);
        let mut options: Vec<(String, String)> = Vec::new();
        let mut remaining = rest;
        let ghost mut done: Seq<Seq<char>> = Seq::empty();
        let mut finished = false;
        while !finished
            invariant
                pieces == split_all(rest@, ';'),
                rest@ == match split_once(s@, ':') {
                    Some((_, r)) => r,
                    None => Seq::<char>::empty(),
                },
                !finished ==> pieces == done + split_all(remaining@, ';'),
                finished ==> pieces == done,
                pair_views(options@) == done.filter(|o: Seq<char>| o.len() > 0).map_values(
                    |o: Seq<char>| option_pair(o),
                ),
            decreases remaining@.len() + (if finished { 0int } else { 1int }),
        {
            let ghost before = remaining@;
            let piece = match cut_once(remaining, ';') {
                Some((a, b)) => {
                    remaining = b;
                    a
                },
                None => {
                    finished = true;
                    remaining
                },
            };
            proof {
                lemma_split_all_step(before, ';');
                assert(split_all(before, ';') =~= seq![piece@] + (if finished {
                    Seq::<Seq<char>>::empty()
                } else {
                    split_all(remaining@, ';')
                }));
                assert(done + seq![piece@] + (if finished {
                    Seq::<Seq<char>>::empty()
                } else {
                    split_all(remaining@, ';')
                }) =~= done.push(piece@) + (if finished {
                    Seq::<Seq<char>>::empty()
                } else {
                    split_all(remaining@, ';')
                }));
                reveal_with_fuel(Seq::filter, 1);
                assert(done.push(piece@).drop_last() =~= done);
                done = done.push(piece@);
            }
            if piece.unicode_len() > 0 {
                let pair = match cut_once(piece, '=') {
                    Some((n, v)) => (n.to_owned(), v.to_owned()),
                    None => (String::new(), piece.to_owned()),
                };
                let ghost prev = options@;
                options.push(pair);
                proof {
                    assert(pair_views(options@) =~= pair_views(prev).push(option_pair(piece@)));
                }
            }
            if finished {
                proof {
                    assert(pieces =~= done);
                }
            }
        }
        Ok(CoderOptions { name: name.to_owned(), options })
    }

    fn lookup_exec(&self, key: &str) -> (r: Option<&str>)
        ensures
            match lookup(self.spec_pairs(), key@) {
                Some(v) => r is Some && r->Some_0@ == v,
                None => r is None,
            },
    {
        let k = key.to_owned();
        let mut i = self.options.len();
        assert(self.spec_pairs().subrange(0, i as int) =~= self.spec_pairs());
        while i > 0
            invariant
                k@ == key@,
                i <= self.options@.len(),
                lookup(self.spec_pairs(), key@) == lookup(self.spec_pairs().subrange(0, i as int), key@),
            decreases i,
        {
            let ghost sub = self.spec_pairs().subrange(0, i as int);
            assert(sub.drop_last() =~= self.spec_pairs().subrange(0, i - 1));
            assert(sub.last() == (self.options@[i - 1].0@, self.options@[i - 1].1@));
            if self.options[i - 1].0 == k {
                return Some(self.options[i - 1].1.as_str());
            }
            i = i - 1;
        }
        None
    }

    /// The value of the first of `names` that is given.
    pub fn get(&self, names: &[&str]) -> (r: Option<&str>)
        ensures
            match lookup_first(self.spec_pairs(), names@.map_values(|n: &str| n@)) {
                Some(v) => r is Some && r->Some_0@ == v,
                None => r is None,
            },
    {
        let ghost all = names@.map_values(|n: &str| n@);
        let mut i: usize = 0;
        assert(all.subrange(0, all.len() as int) =~= all);
        while i < names.len()
            invariant
                i <= names@.len(),
                all == names@.map_values(|n: &str| n@),
                lookup_first(self.spec_pairs(), all) == lookup_first(
                    self.spec_pairs(),
                    all.subrange(i as int, all.len() as int),
                ),
            decreases names@.len() - i,
        {
            let ghost rest = all.subrange(i as int, all.len() as int);
            assert(rest.drop_first() =~= all.subrange(i + 1, all.len() as int));
            assert(rest[0] == names@[i as int]@);
            match self.lookup_exec(names[i]) {
                Some(v) => {
                    return Some(v);
                },
                None => {},
            }
            i = i + 1;
        }
        None
    }

    /// An option read as a `u32`, or `default` when it is not given.
    pub fn get_u32(&self, names: &[&str], default: u32) -> (r: Result<u32, OptionError>)
        ensures
            match lookup_first(self.spec_pairs(), names@.map_values(|n: &str| n@)) {
                None => r == Ok::<u32, OptionError>(default),
                Some(v) => match number_of(v) {
                    Some(x) => if x <= u32::MAX {
                        r == Ok::<u32, OptionError>(x as u32)
                    } else {
                        r == Err::<u32, OptionError>(OptionError::NotU32)
                    },
                    None => r == Err::<u32, OptionError>(OptionError::NotU32),
                },
            },
    {
        match self.get(names) {
            Some(value) => match parse_number(value, u32::MAX as u64) {
                Some(x) => Ok(x as u32),
                None => Err(OptionError::NotU32),
            },
            None => Ok(default),
        }
    }

    /// An option read as a `u64`, or `default` when it is not given.
    pub fn get_u64(&self, names: &[&str], default: u64) -> (r: Result<u64, OptionError>)
        ensures
            match lookup_first(self.spec_pairs(), names@.map_values(|n: &str| n@)) {
                None => r == Ok::<u64, OptionError>(default),
                Some(v) => match number_of(v) {
                    Some(x) => if x <= u64::MAX {
                        r == Ok::<u64, OptionError>(x as u64)
                    } else {
                        r == Err::<u64, OptionError>(OptionError::NotU64)
                    },
                    None => r == Err::<u64, OptionError>(OptionError::NotU64),
                },
            },
    {
        match self.get(names) {
            Some(value) => match parse_number(value, u64::MAX) {
                Some(x) => Ok(x),
                None => Err(OptionError::NotU64),
            },
            None => Ok(default),
        }
    }

    /// An option read as a size (`10`, `64KiB`, `1.5 MB`, ...), or `default`
    /// when it is not given.
    pub fn get_size(&self, names: &[&str], default: u64) -> (r: Result<u64, OptionError>)
        ensures
            match lookup_first(self.spec_pairs(), names@.map_values(|n: &str| n@)) {
                None => r == Ok::<u64, OptionError>(default),
                Some(v) => match byte_size_of(v) {
                    Some(x) => r == Ok::<u64, OptionError>(x),
                    None => r == Err::<u64, OptionError>(OptionError::NotSize),
                },
            },
    {
        match self.get(names) {
            Some(value) => match parse_byte_size(value) {
                Some(x) => Ok(x),
                None => Err(OptionError::NotSize),
            },
            None => Ok(default),
        }
    }

    /// Ratio (0..=100, larger values are refused) that this coder must not
    /// exceed to be kept, i.e.
    /// `(encoded_size * 100) / unencoded_size`; 100 by default.
    pub fn min_ratio(&self) -> (r: Result<u64, OptionError>)
        ensures
            match lookup(self.spec_pairs(), seq!['m', 'i', 'n', 'r', 'a', 't', 'i', 'o']) {
                None => r == Ok::<u64, OptionError>(100),
                Some(v) => match byte_size_of(v) {
                    Some(x) => if x <= 100 {
                        r == Ok::<u64, OptionError>(x)
                    } else {
                        r == Err::<u64, OptionError>(OptionError::NotInRange)
                    },
                    None => r == Err::<u64, OptionError>(OptionError::NotSize),
                },
            },
    {
        let key = "minratio";
        proof {
            reveal_strlit("minratio");
        }
        assert(key@ =~= seq!['m', 'i', 'n', 'r', 'a', 't', 'i', 'o']);
        let names = [key];
        proof {
            assert(names@.map_values(|n: &str| n@) =~= seq![key@]);
            self.lemma_lookup_one(names@.map_values(|n: &str| n@), key@);
        }
        let v = self.get_size(&names, 100)?;
        if v > 100 {
            Err(OptionError::NotInRange)
        } else {
            Ok(v)
        }
    }

    /// Minimum size to reach to keep this coder; 0 by default.
    pub fn min_size(&self) -> (r: Result<u64, OptionError>)
        ensures
            match lookup(self.spec_pairs(), seq!['m', 'i', 'n', 's', 'i', 'z', 'e']) {
                None => r == Ok::<u64, OptionError>(0),
                Some(v) => match byte_size_of(v) {
                    Some(x) => r == Ok::<u64, OptionError>(x),
                    None => r == Err::<u64, OptionError>(OptionError::NotSize),
                },
            },
    {
        let key = "minsize";
        proof {
            reveal_strlit("minsize");
        }
        assert(key@ =~= seq!['m', 'i', 'n', 's', 'i', 'z', 'e']);
        let names = [key];
        proof {
            assert(names@.map_values(|n: &str| n@) =~= seq![key@]);
            self.lemma_lookup_one(names@.map_values(|n: &str| n@), key@);
        }
        self.get_size(&names, 0)
    }

    /// Maximum size not to reach to keep this coder; unbounded by default.
    pub fn max_size(&self) -> (r: Result<u64, OptionError>)
        ensures
            match lookup(self.spec_pairs(), seq!['m', 'a', 'x', 's', 'i', 'z', 'e']) {
                None => r == Ok::<u64, OptionError>(u64::MAX),
                Some(v) => match byte_size_of(v) {
                    Some(x) => r == Ok::<u64, OptionError>(x),
                    None => r == Err::<u64, OptionError>(OptionError::NotSize),
                },
            },
    {
        let key = "maxsize";
        proof {
            reveal_strlit("maxsize");
        }
        assert(key@ =~= seq!['m', 'a', 'x', 's', 'i', 'z', 'e']);
        let names = [key];
        proof {
            assert(names@.map_values(|n: &str| n@) =~= seq![key@]);
            self.lemma_lookup_one(names@.map_values(|n: &str| n@), key@);
        }
        self.get_size(&names, u64::MAX)
    }

    proof fn lemma_lookup_one(&self, names: Seq<Seq<char>>, key: Seq<char>)
        requires
            names == seq![key],
        ensures
            lookup_first(self.spec_pairs(), names) == lookup(self.spec_pairs(), key),
    {
        assert(names.drop_first() =~= Seq::<Seq<char>>::empty());
        reveal_with_fuel(lookup_first, 2);
    }

    /// A `u32` option that must lie in `range`.
    pub fn get_u32_range(&self, names: &[&str], default: u32, range: RangeInclusive<u32>) -> (r:
        Result<u32, OptionError>)
        ensures
            match self.spec_get_u32(names@.map_values(|n: &str| n@), default) {
                Ok(v) => if range@.start <= v && (if range@.exhausted {
                    v < range@.end
                } else {
                    v <= range@.end
                }) {
                    r == Ok::<u32, OptionError>(v)
                } else {
                    r == Err::<u32, OptionError>(OptionError::NotInRange)
                },
                Err(e) => r == Err::<u32, OptionError>(e),
            },
    {
        let v = self.get_u32(names, default)?;
        if range.contains(&v) {
            Ok(v)
        } else {
            Err(OptionError::NotInRange)
        }
    }

    /// What `get_u32` returns.
    pub open spec fn spec_get_u32(&self, names: Seq<Seq<char>>, default: u32) -> Result<
        u32,
        OptionError,
    > {
        match lookup_first(self.spec_pairs(), names) {
            None => Ok(default),
            Some(v) => match number_of(v) {
                Some(x) => if x <= u32::MAX {
                    Ok(x as u32)
                } else {
                    Err(OptionError::NotU32)
                },
                None => Err(OptionError::NotU32),
            },
        }
    }

    /// A flag: a `u32` option that must be 0 or 1.
    pub fn get_bool(&self, names: &[&str], default: u32) -> (r: Result<bool, OptionError>)
        ensures
            match self.spec_get_u32(names@.map_values(|n: &str| n@), default) {
                Ok(v) => if v <= 1 {
                    r == Ok::<bool, OptionError>(v == 1)
                } else {
                    r == Err::<bool, OptionError>(OptionError::NotInRange)
                },
                Err(e) => r == Err::<bool, OptionError>(e),
            },
    {
        let v = self.get_u32_range(names, default, 0..=1)?;
        Ok(v == 1)
    }
}

/// A decoder, selected by its name.
#[derive(Debug, Clone, Copy, PartialEq, Eq, Structural)]
pub enum Decoder {
    Brotli,
    Lzma,
    Zstd,
    Raw,
}

/// An encoder with its parameters.
#[derive(Debug, Clone, Copy, PartialEq, Eq, Structural)]
pub enum Encoder {
    Brotli { quality: u32, lgwin: u32 },
    Lzma { preset: u32, extreme: bool },
    Zstd { level: u32 },
    Raw,
}

/// A patch decoder: the patcher fed with the decoded bytes.
#[derive(Debug, Clone, Copy, PartialEq, Eq, Structural)]
pub enum PatchDecoder {
    /// A vcdiff patch, compressed with the decoder
    Vcdiff(Decoder),
    /// A zstd stream whose dictionary is the local file
    ZstdDictionary,
    /// The new content itself, compressed with the decoder
    Raw(Decoder),
}

/// A patch encoder with its parameters.
#[derive(Debug, Clone, Copy, PartialEq, Eq, Structural)]
pub enum PatchEncoder {
    ZstdDictionary { level: u32 },
    Raw,
}

/// Why a coder cannot be built.
#[derive(Debug, Clone, Copy, PartialEq, Eq, Structural)]
pub enum CoderError {
    /// No coder has this name
    Unsupported,
    /// An option has no usable value
    BadOption(OptionError),
}

/// A value kept only if it lies in `lo..=hi`.
pub open spec fn in_range(v: Result<u32, OptionError>, lo: u32, hi: u32) -> Result<u32, OptionError> {
    match v {
        Ok(x) => if lo <= x && x <= hi {
            Ok(x)
        } else {
            Err(OptionError::NotInRange)
        },
        Err(e) => Err(e),
    }
}

/// `seq!['q', 'u', ...]` for the option names the encoders read.
pub open spec fn chars_quality() -> Seq<char> {
    seq!['q', 'u', 'a', 'l', 'i', 't', 'y']
}

pub open spec fn chars_lgwin() -> Seq<char> {
    seq!['l', 'g', 'w', 'i', 'n']
}

pub open spec fn chars_lg_window_size() -> Seq<char> {
    seq!['l', 'g', '_', 'w', 'i', 'n', 'd', 'o', 'w', '_', 's', 'i', 'z', 'e']
}

pub open spec fn chars_preset() -> Seq<char> {
    seq!['p', 'r', 'e', 's', 'e', 't']
}

pub open spec fn chars_extreme() -> Seq<char> {
    seq!['e', 'x', 't', 'r', 'e', 'm', 'e']
}

pub open spec fn chars_level() -> Seq<char> {
    seq!['l', 'e', 'v', 'e', 'l']
}

/// The encoder that options describe.
pub open spec fn encoder_of(o: CoderOptions) -> Result<Encoder, CoderError> {
    match decoder_of(o.spec_name()) {
        None => Err(CoderError::Unsupported),
        Some(Decoder::Raw) => Ok(Encoder::Raw),
        Some(Decoder::Brotli) => match in_range(
            o.spec_get_u32(seq![Seq::empty(), chars_quality()], 6),
            0,
            11,
        ) {
            Err(e) => Err(CoderError::BadOption(e)),
            Ok(quality) => match in_range(
                o.spec_get_u32(seq![chars_lgwin(), chars_lg_window_size()], 20),
                10,
                30,
            ) {
                Err(e) => Err(CoderError::BadOption(e)),
                Ok(lgwin) => Ok(Encoder::Brotli { quality, lgwin }),
            },
        },
        Some(Decoder::Lzma) => match in_range(
            o.spec_get_u32(seq![Seq::empty(), chars_preset()], 6),
            0,
            9,
        ) {
            Err(e) => Err(CoderError::BadOption(e)),
            Ok(preset) => match in_range(o.spec_get_u32(seq![chars_extreme()], 1), 0, 1) {
                Err(e) => Err(CoderError::BadOption(e)),
                Ok(x) => Ok(Encoder::Lzma { preset, extreme: x == 1 }),
            },
        },
        Some(Decoder::Zstd) => match in_range(
            o.spec_get_u32(seq![Seq::empty(), chars_level()], 3),
            1,
            21,
        ) {
            Err(e) => Err(CoderError::BadOption(e)),
            Ok(level) => Ok(Encoder::Zstd { level }),
        },
    }
}

/// The decoder a name selects.
pub open spec fn decoder_of(name: Seq<char>) -> Option<Decoder> {
    if name == seq!['b', 'r', 'o', 't', 'l', 'i'] {
        Some(Decoder::Brotli)
    } else if name == seq!['l', 'z', 'm', 'a'] {
        Some(Decoder::Lzma)
    } else if name == seq!['z', 's', 't', 'd'] {
        Some(Decoder::Zstd)
    } else if name == seq!['r', 'a', 'w'] {
        Some(Decoder::Raw)
    } else {
        None
    }
}

fn same_str(a: &str, b: &str) -> (r: bool)
    ensures
        r == (a@ == b@),
{
    a.to_owned() == b.to_owned()
}

/// The decoder called `name`.
pub fn decoder(name: &str) -> (r: Result<Decoder, CoderError>)
    ensures
        match decoder_of(name@) {
            Some(d) => r == Ok::<Decoder, CoderError>(d),
            None => r == Err::<Decoder, CoderError>(CoderError::Unsupported),
        },
{
    let brotli = "brotli";
    let lzma = "lzma";
    let zstd = "zstd";
    let raw = "raw";
    proof {
        reveal_strlit("brotli");
        reveal_strlit("lzma");
        reveal_strlit("zstd");
        reveal_strlit("raw");
        assert(brotli@ =~= seq!['b', 'r', 'o', 't', 'l', 'i']);
        assert(lzma@ =~= seq!['l', 'z', 'm', 'a']);
        assert(zstd@ =~= seq!['z', 's', 't', 'd']);
        assert(raw@ =~= seq!['r', 'a', 'w']);
    }
    if same_str(name, brotli) {
        Ok(Decoder::Brotli)
    } else if same_str(name, lzma) {
        Ok(Decoder::Lzma)
    } else if same_str(name, zstd) {
        Ok(Decoder::Zstd)
    } else if same_str(name, raw) {
        Ok(Decoder::Raw)
    } else {
        Err(CoderError::Unsupported)
    }
}

/// The patch decoder for `patcher_name`, its data compressed with
/// `decompressor_name`.
pub fn patch_decoder(decompressor_name: &str, patcher_name: &str) -> (r: Result<
    PatchDecoder,
    CoderError,
>)
    ensures
        patcher_name@ == seq!['v', 'c', 'd', 'i', 'f', 'f'] ==> match decoder_of(decompressor_name@) {
            Some(d) => r == Ok::<PatchDecoder, CoderError>(PatchDecoder::Vcdiff(d)),
            None => r == Err::<PatchDecoder, CoderError>(CoderError::Unsupported),
        },
        patcher_name@ == seq!['z', 's', 't', 'd'] ==> r == Ok::<PatchDecoder, CoderError>(
            PatchDecoder::ZstdDictionary,
        ),
        patcher_name@ == seq!['r', 'a', 'w'] ==> match decoder_of(decompressor_name@) {
            Some(d) => r == Ok::<PatchDecoder, CoderError>(PatchDecoder::Raw(d)),
            None => r == Err::<PatchDecoder, CoderError>(CoderError::Unsupported),
        },
        !(patcher_name@ == seq!['v', 'c', 'd', 'i', 'f', 'f'] || patcher_name@ == seq![
            'z',
            's',
            't',
            'd',
        ] || patcher_name@ == seq!['r', 'a', 'w']) ==> r == Err::<PatchDecoder, CoderError>(
            CoderError::Unsupported,
        ),
{
    let vcdiff = "vcdiff";
    let zstd = "zstd";
    let raw = "raw";
    proof {
        reveal_strlit("vcdiff");
        reveal_strlit("zstd");
        reveal_strlit("raw");
        assert(vcdiff@ =~= seq!['v', 'c', 'd', 'i', 'f', 'f']);
        assert(zstd@ =~= seq!['z', 's', 't', 'd']);
        assert(raw@ =~= seq!['r', 'a', 'w']);
    }
    if same_str(patcher_name, vcdiff) {
        match decoder(decompressor_name) {
            Ok(d) => Ok(PatchDecoder::Vcdiff(d)),
            Err(e) => Err(e),
        }
    } else if same_str(patcher_name, zstd) {
        Ok(PatchDecoder::ZstdDictionary)
    } else if same_str(patcher_name, raw) {
        match decoder(decompressor_name) {
            Ok(d) => Ok(PatchDecoder::Raw(d)),
            Err(e) => Err(e),
        }
    } else {
        Err(CoderError::Unsupported)
    }
}

/// The encoder that `options` describe, with its parameters read and
/// checked: brotli quality `0..=11` (default 6) and window `10..=30`
/// (default 20); lzma preset `0..=9` (default 6) and `extreme` (default on);
/// zstd level `1..=21` (default 3); raw has none.
pub fn encoder(options: &CoderOptions) -> (r: Result<Encoder, CoderError>)
    ensures
        r == encoder_of(*options),
        r matches Ok(Encoder::Brotli { quality, lgwin }) ==> quality <= 11 && 10 <= lgwin <= 30,
        r matches Ok(Encoder::Lzma { preset, .. }) ==> preset <= 9,
        r matches Ok(Encoder::Zstd { level }) ==> 1 <= level <= 21,
{
    let kind = match decoder(options.name()) {
        Ok(k) => k,
        Err(e) => {
            return Err(e);
        },
    };
    let empty = "";
    let quality = "quality";
    let lgwin = "lgwin";
    let lg_window_size = "lg_window_size";
    let preset = "preset";
    let extreme = "extreme";
    let level = "level";
    proof {
        reveal_strlit("");
        reveal_strlit("quality");
        reveal_strlit("lgwin");
        reveal_strlit("lg_window_size");
        reveal_strlit("preset");
        reveal_strlit("extreme");
        reveal_strlit("level");
        assert(empty@ =~= Seq::<char>::empty());
        assert(quality@ =~= chars_quality());
        assert(lgwin@ =~= chars_lgwin());
        assert(lg_window_size@ =~= chars_lg_window_size());
        assert(preset@ =~= chars_preset());
        assert(extreme@ =~= chars_extreme());
        assert(level@ =~= chars_level());
    }
    match kind {
        Decoder::Brotli => {
            let names = [empty, quality];
            assert(names@.map_values(|n: &str| n@) =~= seq![Seq::<char>::empty(), chars_quality()]);
            let q = match options.get_u32_range(&names, 6, 0..=11) {
                Ok(v) => v,
                Err(e) => {
                    return Err(CoderError::BadOption(e));
                },
            };
            let names = [lgwin, lg_window_size];
            assert(names@.map_values(|n: &str| n@) =~= seq![chars_lgwin(), chars_lg_window_size()]);
            let w = match options.get_u32_range(&names, 20, 10..=30) {
                Ok(v) => v,
                Err(e) => {
                    return Err(CoderError::BadOption(e));
                },
            };
            Ok(Encoder::Brotli { quality: q, lgwin: w })
        },
        Decoder::Lzma => {
            let names = [empty, preset];
            assert(names@.map_values(|n: &str| n@) =~= seq![Seq::<char>::empty(), chars_preset()]);
            let p = match options.get_u32_range(&names, 6, 0..=9) {
                Ok(v) => v,
                Err(e) => {
                    return Err(CoderError::BadOption(e));
                },
            };
            let names = [extreme];
            assert(names@.map_values(|n: &str| n@) =~= seq![chars_extreme()]);
            let x = match options.get_bool(&names, 1) {
                Ok(v) => v,
                Err(e) => {
                    return Err(CoderError::BadOption(e));
                },
            };
            Ok(Encoder::Lzma { preset: p, extreme: x })
        },
        Decoder::Zstd => {
            let names = [empty, level];
            assert(names@.map_values(|n: &str| n@) =~= seq![Seq::<char>::empty(), chars_level()]);
            let l = match options.get_u32_range(&names, 3, 1..=21) {
                Ok(v) => v,
                Err(e) => {
                    return Err(CoderError::BadOption(e));
                },
            };
            Ok(Encoder::Zstd { level: l })
        },
        Decoder::Raw => Ok(Encoder::Raw),
    }
}

/// The patch encoder that `options` describe: zstd with the local file as
/// dictionary (level `1..=21`, default 3), or raw.
pub fn patch_encoder(options: &CoderOptions) -> (r: Result<PatchEncoder, CoderError>)
    ensures
        r == match decoder_of(options.spec_name()) {
            Some(Decoder::Zstd) => match in_range(
                options.spec_get_u32(seq![Seq::empty(), chars_level()], 3),
                1,
                21,
            ) {
                Ok(level) => Ok(PatchEncoder::ZstdDictionary { level }),
                Err(e) => Err(CoderError::BadOption(e)),
            },
            Some(Decoder::Raw) => Ok(PatchEncoder::Raw),
            _ => Err(CoderError::Unsupported),
        },
{
    match decoder(options.name()) {
        Ok(Decoder::Zstd) => {
            let empty = "";
            let level = "level";
            proof {
                reveal_strlit("");
                reveal_strlit("level");
                assert(empty@ =~= Seq::<char>::empty());
                assert(level@ =~= chars_level());
            }
            let names = [empty, level];
            assert(names@.map_values(|n: &str| n@) =~= seq![Seq::<char>::empty(), chars_level()]);
            match options.get_u32_range(&names, 3, 1..=21) {
                Ok(l) => Ok(PatchEncoder::ZstdDictionary { level: l }),
                Err(e) => Err(CoderError::BadOption(e)),
            }
        },
        Ok(Decoder::Raw) => Ok(PatchEncoder::Raw),
        _ => Err(CoderError::Unsupported),
    }
}

/// Cuts `s` at its first `c`.
fn cut_once(s: &str, c: char) -> (r: Option<(&str, &str)>)
    ensures
        match split_once(s@, c) {
            Some((a, b)) => r is Some && r->Some_0.0@ == a && r->Some_0.1@ == b,
            None => r is None,
        },
        r is Some ==> r->Some_0.1@.len() < s@.len(),
{
    let n = s.unicode_len();
    let mut i: usize = 0;
    while i < n
        invariant
            n == s@.len(),
            i <= n,
            forall|j: int| 0 <= j < i ==> s@[j] != c,
        decreases n - i,
    {
        if s.get_char(i) == c {
            proof {
                lemma_first_index_at(s@, c, i as int);
            }
            return Some((s.substring_char(0, i), s.substring_char(i + 1, n)));
        }
        i = i + 1;
    }
    None
}

} // verus!
