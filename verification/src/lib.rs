//! A crate name and version parser.
//!
//! Splits a combined `$name-$version` identifier, as found in package archive
//! file names such as `zstd-sys-1.4.15+zstd.1.4.4`, into its name and version
//! parts. Names may themselves contain hyphens and digits, so the splitter
//! picks the rightmost hyphen that is immediately followed by a decimal digit.

use vstd::prelude::*;

verus! {

/// True when `c` is a decimal digit (`'0'` through `'9'`).
pub open spec fn is_digit_char(c: char) -> bool {
    48 <= c as u32 && c as u32 <= 57
}

/// True when the hyphen at index `h` of `s` is immediately followed by a
/// decimal digit, making `h` a candidate split point.
pub open spec fn boundary_at(s: Seq<char>, h: int) -> bool {
    &&& 0 <= h
    &&& h + 1 < s.len()
    &&& s[h] == '-'
    &&& is_digit_char(s[h + 1])
}

/// True when `s` contains at least one hyphen-digit boundary.
pub open spec fn has_boundary(s: Seq<char>) -> bool {
    exists|h: int| boundary_at(s, h)
}

/// The index of the rightmost hyphen-digit boundary of `s`, scanning from the
/// end, or `0` when `s` has no such boundary.
pub open spec fn split_point(s: Seq<char>) -> int
    decreases s.len(),
{
    if s.len() < 2 {
        0
    } else if s[s.len() - 2] == '-' && is_digit_char(s[s.len() - 1]) {
        s.len() - 2
    } else {
        split_point(s.drop_last())
    }
}

/// The split point is itself a boundary whenever `s` has one, it is maximal
/// among all boundaries, and it falls back to `0` when `s` has none.
pub proof fn lemma_split_point_props(s: Seq<char>)
    ensures
        has_boundary(s) ==> boundary_at(s, split_point(s)),
        forall|h: int| boundary_at(s, h) ==> h <= split_point(s),
        !has_boundary(s) ==> split_point(s) == 0,
    decreases s.len(),
{
    if s.len() < 2 {
        assert(forall|h: int| !boundary_at(s, h));
    } else if s[s.len() - 2] == '-' && is_digit_char(s[s.len() - 1]) {
        assert(boundary_at(s, s.len() - 2));
    } else {
        let s2 = s.drop_last();
        lemma_split_point_props(s2);
        assert forall|h: int| boundary_at(s, h) implies boundary_at(s2, h) by {
            assert(h != s.len() - 2);
            assert(s2[h] == s[h] && s2[h + 1] == s[h + 1]);
        }
        assert forall|h: int| boundary_at(s2, h) implies boundary_at(s, h) by {
            assert(s2[h] == s[h] && s2[h + 1] == s[h + 1]);
        }
        if has_boundary(s) {
            let h0 = choose|h: int| boundary_at(s, h);
            assert(boundary_at(s2, h0));
            assert(has_boundary(s2));
        } else {
            if has_boundary(s2) {
                let h0 = choose|h: int| boundary_at(s2, h);
                assert(boundary_at(s, h0));
            }
        }
    }
}

/// The name part of `s`: everything before the split point.
pub open spec fn spec_name(s: Seq<char>) -> Seq<char> {
    s.subrange(0, split_point(s))
}

/// The version part of `s`: everything after the split point. When `s` has no
/// boundary the split point is `0` and the version is `s` without its first
/// character; that degenerate behaviour is deliberate.
pub open spec fn spec_version(s: Seq<char>) -> Seq<char> {
    s.subrange(split_point(s) + 1, s.len() as int)
}

/// For every input with at least one hyphen-digit boundary, gluing the name
/// and the version back together with a single hyphen reproduces the input
/// exactly.
pub proof fn lemma_reassembly(s: Seq<char>)
    requires
        has_boundary(s),
    ensures
        spec_name(s) + seq!['-'] + spec_version(s) == s,
{
    lemma_split_point_props(s);
    let m = split_point(s);
    assert(boundary_at(s, m));
    assert(spec_name(s) + seq!['-'] + spec_version(s) =~= s);
}

/// The split is rightmost: every boundary of `s` lies at or before the chosen
/// split point, and the split point is itself a boundary.
pub proof fn lemma_rightmost_split(s: Seq<char>, h: int)
    requires
        boundary_at(s, h),
    ensures
        boundary_at(s, split_point(s)),
        h <= split_point(s),
{
    lemma_split_point_props(s);
}

/// Hyphens inside a name never cause a mis-split: as long as the input has a
/// boundary at all, a position that is not a hyphen-digit boundary (such as a
/// name's internal hyphen followed by a letter, or a digit not preceded by a
/// hyphen) is never chosen as the split point.
pub proof fn lemma_no_false_split(s: Seq<char>, h: int)
    requires
        has_boundary(s),
        !boundary_at(s, h),
    ensures
        split_point(s) != h,
{
    lemma_split_point_props(s);
}

/// An error found while parsing.
#[derive(Debug)]
#[non_exhaustive]
pub enum Error {
    /// Name is missing.
    MissingName {
        /// Position parser ended up at.
        pos: usize,
    },
    /// Version is missing.
    MissingVersion {
        /// Position parser ended up at.
        pos: usize,
    },
}

/// The decimal digit character for `d`, which must be below ten.
pub open spec fn digit_char(d: nat) -> char {
    if d == 0 {
        '0'
    } else if d == 1 {
        '1'
    } else if d == 2 {
        '2'
    } else if d == 3 {
        '3'
    } else if d == 4 {
        '4'
    } else if d == 5 {
        '5'
    } else if d == 6 {
        '6'
    } else if d == 7 {
        '7'
    } else if d == 8 {
        '8'
    } else {
        '9'
    }
}

/// The decimal rendering of `n`, most significant digit first, with no
/// leading zeros (a lone `'0'` for zero itself).
pub open spec fn decimal_digits(n: nat) -> Seq<char>
    decreases n,
{
    if n < 10 {
        seq![digit_char(n)]
    } else {
        decimal_digits(n / 10) + seq![digit_char(n % 10)]
    }
}

/// The diagnostic text for `e`: which half of the split was missing, and the
/// approximate position the parser ended up at.
pub open spec fn spec_message(e: Error) -> Seq<char> {
    match e {
        Error::MissingName { pos } => "missing name at approx: "@ + decimal_digits(pos as nat),
        Error::MissingVersion { pos } => "missing version at approx: "@ + decimal_digits(
            pos as nat,
        ),
    }
}

/// The one-character string for the decimal digit `d`.
fn digit_str(d: usize) -> (r: &'static str)
    requires
        d < 10,
    ensures
        r@ == seq![digit_char(d as nat)],
{
    let r: &'static str = match d {
        0 => "0",
        1 => "1",
        2 => "2",
        3 => "3",
        4 => "4",
        5 => "5",
        6 => "6",
        7 => "7",
        8 => "8",
        _ => "9",
    };
    proof {
        reveal_strlit("0");
        reveal_strlit("1");
        reveal_strlit("2");
        reveal_strlit("3");
        reveal_strlit("4");
        reveal_strlit("5");
        reveal_strlit("6");
        reveal_strlit("7");
        reveal_strlit("8");
        reveal_strlit("9");
        assert(r@ =~= seq![digit_char(d as nat)]);
    }
    r
}

/// Appends the decimal rendering of `n` to `out`.
fn append_decimal(n: usize, out: &mut String)
    ensures
        final(out)@ == old(out)@ + decimal_digits(n as nat),
    decreases n,
{
    if n >= 10 {
        append_decimal(n / 10, out);
    }
    out.append(digit_str(n % 10));
    proof {
        assert(out@ =~= old(out)@ + decimal_digits(n as nat));
    }
}

impl Error {
    /// The human-readable diagnostic for this error, naming the missing half
    /// and the approximate position.
    pub fn message(&self) -> (r: String)
        ensures
            r@ == spec_message(*self),
    {
        match self {
            Error::MissingName { pos } => {
                let mut s = String::from_str("missing name at approx: ");
                append_decimal(*pos, &mut s);
                s
            },
            Error::MissingVersion { pos } => {
                let mut s = String::from_str("missing version at approx: ");
                append_decimal(*pos, &mut s);
                s
            },
        }
    }
}

/// A crate name plus its semver version, borrowed from the parsed input.
#[derive(Debug, Copy, Clone, PartialEq, Hash, PartialOrd, Eq, Ord)]
pub struct CrateVersion<'a> {
    /// Name of the crate.
    pub name: &'a str,
    /// Semver for the crate.
    pub version: &'a str,
}

/// What [`CrateVersion::try_parse`] returns for the input `s`: the name and
/// version parts around the split point on any non-empty input, and a
/// missing-version error at position `1` on the empty input.
pub open spec fn parse_conforms(s: Seq<char>, r: Result<CrateVersion, Error>) -> bool {
    match r {
        Ok(cv) => s.len() > 0 && cv.name@ == spec_name(s) && cv.version@ == spec_version(s),
        Err(e) => s.len() == 0 && e == (Error::MissingVersion { pos: 1 }),
    }
}

/// Parsing is deterministic: any two results that the parser's contract
/// allows for one and the same input agree in every observable part.
pub proof fn lemma_parse_deterministic(
    s: Seq<char>,
    r1: Result<CrateVersion, Error>,
    r2: Result<CrateVersion, Error>,
)
    requires
        parse_conforms(s, r1),
        parse_conforms(s, r2),
    ensures
        match (r1, r2) {
            (Ok(a), Ok(b)) => a.name@ == b.name@ && a.version@ == b.version@,
            (Err(a), Err(b)) => a == b,
            _ => false,
        },
{
}

/// The index of the rightmost hyphen-digit boundary of `input`, in
/// characters, or `0` when there is none: the executable counterpart of
/// [`split_point`].
fn find_split_point(input: &str) -> (m: usize)
    ensures
        m as int == split_point(input@),
        m as int <= input@.len(),
{
    let n = input.unicode_len();
    let mut k: usize = n;
    proof {
        assert(input@.subrange(0, n as int) =~= input@);
    }
    while k >= 2
        invariant
            k <= n,
            n == input@.len(),
            split_point(input@) == split_point(input@.subrange(0, k as int)),
        decreases k,
    {
        let c2 = input.get_char(k - 1);
        let c1 = input.get_char(k - 2);
        if c1 == '-' && 48 <= c2 as u32 && c2 as u32 <= 57 {
            proof {
                let pre = input@.subrange(0, k as int);
                assert(pre[k as int - 2] == input@[k as int - 2]);
                assert(pre[k as int - 1] == input@[k as int - 1]);
                assert(split_point(pre) == k as int - 2);
            }
            return k - 2;
        }
        proof {
            let pre = input@.subrange(0, k as int);
            assert(pre[k as int - 2] == input@[k as int - 2]);
            assert(pre[k as int - 1] == input@[k as int - 1]);
            assert(split_point(pre) == split_point(pre.drop_last()));
            assert(pre.drop_last() =~= input@.subrange(0, k as int - 1));
        }
        k -= 1;
    }
    0
}

impl<'a> CrateVersion<'a> {
    /// Tries to parse a crate `name` and `version` from a `$crate-$vers`
    /// format, splitting at the rightmost hyphen that is immediately followed
    /// by a decimal digit.
    ///
    /// Every non-empty input parses; only the empty input is rejected, with
    /// [`Error::MissingVersion`]. An input without any hyphen-digit boundary
    /// keeps the degenerate fallback split at position `0`: the name comes
    /// back empty and the version is the input minus its first character.
    pub fn try_parse(input: &'a str) -> (r: Result<Self, Error>)
        ensures
            parse_conforms(input@, r),
            r is Ok <==> input@.len() > 0,
            has_boundary(input@) ==> (r matches Ok(cv) && cv.name@ + seq!['-'] + cv.version@
                == input@),
    {
        let n = input.unicode_len();
        let midpoint = find_split_point(input);
        proof {
            lemma_split_point_props(input@);
            if has_boundary(input@) {
                assert(boundary_at(input@, split_point(input@)));
            }
        }
        let name = input.substring_char(0, midpoint);
        if midpoint + 1 > n {
            return Err(Error::MissingVersion { pos: midpoint + 1 });
        }
        let version = input.substring_char(midpoint + 1, n);
        proof {
            if has_boundary(input@) {
                lemma_reassembly(input@);
            }
        }
        Ok(CrateVersion { name, version })
    }
}

} // verus!

