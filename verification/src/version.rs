//! The `Version` value type: parsing from a dotted string, canonical display,
//! and the literal lexicographic ordering over `(major, minor, patch, build)`.

use vstd::prelude::*;

use crate::digits::all_digits;
use crate::digits::dec_digits;
use crate::digits::dec_value;
use crate::digits::digit_run;
use crate::digits::find_digit_run;
use crate::digits::find_first_dot;
use crate::digits::first_dot;
use crate::digits::is_digit_char;
use crate::digits::lemma_dec_digits;
use crate::digits::lemma_dec_value_grows;
use crate::digits::lemma_dec_value_snoc;
use crate::digits::lemma_digit_run;
use crate::digits::lemma_first_dot;
use crate::digits::u16_to_decimal;
use std::cmp::Ordering;

verus! {

/// How parsing a version string can fail.
#[derive(Debug, Clone, Copy, PartialEq, Eq, Structural)]
pub enum ParseError {
    /// A required segment was present but textually empty.
    Empty,
    /// A structurally malformed segment: the third segment begins with a
    /// character that is not a digit.
    InvalidFormat,
    /// A segment was structurally plausible but failed integer conversion:
    /// non-numeric content, or a value outside the 16-bit range.
    NumericParse,
}

impl ParseError {
    /// A diagnostic message for this error kind.
    pub fn message(&self) -> (r: &'static str)
        ensures
            (*self is Empty) ==> r@ == "segment is empty"@,
            (*self is InvalidFormat) ==> r@ == "invalid format"@,
            (*self is NumericParse) ==> r@ == "cannot parse segment as a 16-bit number"@,
    {
        match self {
            ParseError::Empty => "segment is empty",
            ParseError::InvalidFormat => "invalid format",
            ParseError::NumericParse => "cannot parse segment as a 16-bit number",
        }
    }
}

/// The mathematical content of a `Version`: three 16-bit components and the
/// build suffix as a sequence of characters.
#[verifier::ext_equal]
pub ghost struct VersionView {
    pub major: u16,
    pub minor: u16,
    pub patch: u16,
    pub build: Seq<char>,
}

/// A loosely-formatted version: `major.minor.patch` plus a free-form build
/// suffix stored verbatim, including any leading punctuation; an empty
/// `build` means "no suffix". Immutable once constructed.
#[derive(Debug, Clone)]
pub struct Version {
    major: u16,
    minor: u16,
    patch: u16,
    build: String,
}

impl View for Version {
    type V = VersionView;

    closed spec fn view(&self) -> VersionView {
        VersionView { major: self.major, minor: self.minor, patch: self.patch, build: self.build@ }
    }
}

/// Reading a whole segment as an unsigned 16-bit number: an empty segment is
/// missing content, anything non-numeric or out of range is a numeric
/// failure.
pub open spec fn parse_u16_spec(seg: Seq<char>) -> Result<u16, ParseError> {
    if seg.len() == 0 {
        Err(ParseError::Empty)
    } else if !all_digits(seg) {
        Err(ParseError::NumericParse)
    } else if dec_value(seg) > 0xffff {
        Err(ParseError::NumericParse)
    } else {
        Ok(dec_value(seg) as u16)
    }
}

/// Splitting the third segment into its longest leading digit run (the patch
/// number) and the verbatim remainder (the build suffix).
pub open spec fn split_patch_spec(seg: Seq<char>) -> Result<(u16, Seq<char>), ParseError> {
    if seg.len() == 0 {
        Err(ParseError::Empty)
    } else if digit_run(seg) == 0 {
        Err(ParseError::InvalidFormat)
    } else if dec_value(seg.take(digit_run(seg))) > 0xffff {
        Err(ParseError::NumericParse)
    } else {
        Ok(((dec_value(seg.take(digit_run(seg))) as u16), seg.skip(digit_run(seg))))
    }
}

/// What parsing a version string yields: the first dot-separated segment is
/// the major number, the second (defaulting to 0) the minor, and the third
/// (defaulting to 0 with an empty suffix) splits into patch digits and a
/// verbatim build suffix. Segments past the third are silently ignored.
pub open spec fn spec_parse(s: Seq<char>) -> Result<VersionView, ParseError> {
    let d1 = first_dot(s);
    match parse_u16_spec(s.take(d1)) {
        Err(e) => Err(e),
        Ok(major) => if d1 == s.len() {
            Ok(VersionView { major, minor: 0, patch: 0, build: Seq::empty() })
        } else {
            let r1 = s.skip(d1 + 1);
            let d2 = first_dot(r1);
            match parse_u16_spec(r1.take(d2)) {
                Err(e) => Err(e),
                Ok(minor) => if d2 == r1.len() {
                    Ok(VersionView { major, minor, patch: 0, build: Seq::empty() })
                } else {
                    let r2 = r1.skip(d2 + 1);
                    let seg3 = r2.take(first_dot(r2));
                    match split_patch_spec(seg3) {
                        Err(e) => Err(e),
                        Ok(pb) => Ok(
                            VersionView { major, minor, patch: pb.0, build: pb.1 },
                        ),
                    }
                },
            }
        },
    }
}

/// Reads the leading digits `seg[0..k]` as a number, reporting a numeric
/// failure if the value does not fit in 16 bits.
fn parse_digits_u16(seg: &str, k: usize) -> (r: Result<u16, ParseError>)
    requires
        k as int <= seg@.len(),
        forall|j: int| 0 <= j < k ==> is_digit_char(#[trigger] seg@[j]),
    ensures
        dec_value(seg@.take(k as int)) > 0xffff ==> r == Err::<u16, ParseError>(
            ParseError::NumericParse,
        ),
        dec_value(seg@.take(k as int)) <= 0xffff ==> r == Ok::<u16, ParseError>(
            (dec_value(seg@.take(k as int)) as u16),
        ),
{
    let mut val: u32 = 0;
    let mut i: usize = 0;
    while i < k
        invariant
            0 <= i <= k,
            k as int <= seg@.len(),
            forall|j: int| 0 <= j < k ==> is_digit_char(#[trigger] seg@[j]),
            val == dec_value(seg@.take(i as int)),
            val <= 0xffff,
        decreases k - i,
    {
        let u = seg.get_char(i) as u32;
        proof {
            lemma_dec_value_snoc(seg@, i as int);
        }
        val = val * 10 + (u - 48);
        i = i + 1;
        if val > 0xffff {
            proof {
                lemma_dec_value_grows(seg@, i as int, k as int);
            }
            return Err(ParseError::NumericParse);
        }
    }
    proof {
        assert(seg@.take(k as int).len() == k as int);
    }
    Ok(val as u16)
}

/// Reads one whole dot-free segment as a 16-bit number, exactly as
/// `parse_u16_spec` describes.
fn parse_u16_exec(seg: &str) -> (r: Result<u16, ParseError>)
    ensures
        r == parse_u16_spec(seg@),
{
    let n = seg.unicode_len();
    if n == 0 {
        return Err(ParseError::Empty);
    }
    let k = find_digit_run(seg);
    proof {
        lemma_digit_run(seg@);
    }
    if k < n {
        // A non-digit stands somewhere in the segment.
        return Err(ParseError::NumericParse);
    }
    proof {
        assert(seg@.take(n as int) =~= seg@);
    }
    parse_digits_u16(seg, n)
}

/// Splits the third segment into patch digits and a verbatim build suffix,
/// exactly as `split_patch_spec` describes.
fn split_patch_exec(seg: &str) -> (r: Result<(u16, String), ParseError>)
    ensures
        (r matches Ok(pb) ==> split_patch_spec(seg@) matches Ok(m) && pb.0 == m.0 && pb.1@
            == m.1),
        (r matches Err(e) ==> split_patch_spec(seg@) == Err::<(u16, Seq<char>), ParseError>(e)),
{
    let n = seg.unicode_len();
    if n == 0 {
        return Err(ParseError::Empty);
    }
    let k = find_digit_run(seg);
    if k == 0 {
        return Err(ParseError::InvalidFormat);
    }
    proof {
        lemma_digit_run(seg@);
    }
    let patch = match parse_digits_u16(seg, k) {
        Ok(p) => p,
        Err(e) => {
            return Err(e);
        },
    };
    let build = seg.substring_char(k, n).to_owned();
    proof {
        assert(build@ =~= seg@.skip(k as int));
    }
    Ok((patch, build))
}

impl Version {
    /// Builds a version directly from its four components.
    pub fn new(major: u16, minor: u16, patch: u16, build: String) -> (r: Version)
        ensures
            r@ == (VersionView { major, minor, patch, build: build@ }),
    {
        Version { major, minor, patch, build }
    }

    /// The major component.
    pub fn major(&self) -> (r: u16)
        ensures
            r == self@.major,
    {
        self.major
    }

    /// The minor component.
    pub fn minor(&self) -> (r: u16)
        ensures
            r == self@.minor,
    {
        self.minor
    }

    /// The patch component.
    pub fn patch(&self) -> (r: u16)
        ensures
            r == self@.patch,
    {
        self.patch
    }

    /// The verbatim build suffix.
    pub fn build(&self) -> (r: &str)
        ensures
            r@ == self@.build,
    {
        self.build.as_str()
    }

    /// Parses a free-form version string, yielding exactly what `spec_parse`
    /// describes: a structured version, or the error kind for the first
    /// offending segment.
    pub fn parse(s: &str) -> (r: Result<Version, ParseError>)
        ensures
            (r matches Ok(v) ==> spec_parse(s@) matches Ok(m) && v@ == m),
            (r matches Err(e) ==> spec_parse(s@) == Err::<VersionView, ParseError>(e)),
    {
        let n = s.unicode_len();
        let d1 = find_first_dot(s);
        let seg1 = s.substring_char(0, d1);
        proof {
            lemma_first_dot(s@);
            assert(seg1@ =~= s@.take(d1 as int));
        }
        let major = match parse_u16_exec(seg1) {
            Ok(m) => m,
            Err(e) => {
                return Err(e);
            },
        };
        if d1 == n {
            return Ok(Version { major, minor: 0, patch: 0, build: String::new() });
        }
        let r1 = s.substring_char(d1 + 1, n);
        proof {
            assert(r1@ =~= s@.skip(d1 + 1));
        }
        let n1 = r1.unicode_len();
        let d2 = find_first_dot(r1);
        let seg2 = r1.substring_char(0, d2);
        proof {
            lemma_first_dot(r1@);
            assert(seg2@ =~= r1@.take(d2 as int));
        }
        let minor = match parse_u16_exec(seg2) {
            Ok(m) => m,
            Err(e) => {
                return Err(e);
            },
        };
        if d2 == n1 {
            return Ok(Version { major, minor, patch: 0, build: String::new() });
        }
        let r2 = r1.substring_char(d2 + 1, n1);
        proof {
            assert(r2@ =~= r1@.skip(d2 + 1));
        }
        let d3 = find_first_dot(r2);
        let seg3 = r2.substring_char(0, d3);
        proof {
            lemma_first_dot(r2@);
            assert(seg3@ =~= r2@.take(d3 as int));
        }
        match split_patch_exec(seg3) {
            Ok(pb) => Ok(Version { major, minor, patch: pb.0, build: pb.1 }),
            Err(e) => Err(e),
        }
    }

    /// Renders the version as `"{major}.{minor}.{patch}{build}"`: always all
    /// three numeric components, the suffix appended verbatim with no
    /// separator of its own.
    pub fn to_display_string(&self) -> (r: String)
        ensures
            r@ == spec_display(self@),
    {
        proof {
            reveal_strlit(".");
            assert("."@ =~= seq!['.']);
        }
        let mut r = u16_to_decimal(self.major);
        r.append(".");
        let mi = u16_to_decimal(self.minor);
        r.append(mi.as_str());
        r.append(".");
        let pa = u16_to_decimal(self.patch);
        r.append(pa.as_str());
        r.append(self.build.as_str());
        proof {
            assert(r@ =~= spec_display(self@));
        }
        r
    }

    /// Three-way comparison in the literal `(major, minor, patch, build)`
    /// order that `spec_cmp` states.
    pub fn compare(&self, other: &Version) -> (r: Ordering)
        ensures
            r == spec_cmp(self@, other@),
    {
        if self.major != other.major {
            if self.major < other.major {
                Ordering::Less
            } else {
                Ordering::Greater
            }
        } else if self.minor != other.minor {
            if self.minor < other.minor {
                Ordering::Less
            } else {
                Ordering::Greater
            }
        } else if self.patch != other.patch {
            if self.patch < other.patch {
                Ordering::Less
            } else {
                Ordering::Greater
            }
        } else {
            str_lex_cmp(self.build.as_str(), other.build.as_str())
        }
    }
}

/// The canonical rendering of a version: the three numeric components in
/// decimal, separated by dots, then the verbatim build suffix.
pub open spec fn spec_display(v: VersionView) -> Seq<char> {
    dec_digits(v.major as int) + seq!['.'] + dec_digits(v.minor as int) + seq!['.'] + dec_digits(
        v.patch as int,
    ) + v.build
}

/// Raw lexicographic order on character sequences, by code point; a proper
/// prefix orders before any extension of it.
pub open spec fn lex_cmp_chars(a: Seq<char>, b: Seq<char>) -> Ordering
    decreases a.len(),
{
    if a.len() == 0 && b.len() == 0 {
        Ordering::Equal
    } else if a.len() == 0 {
        Ordering::Less
    } else if b.len() == 0 {
        Ordering::Greater
    } else if a[0] == b[0] {
        lex_cmp_chars(a.skip(1), b.skip(1))
    } else if (a[0] as u32) < (b[0] as u32) {
        Ordering::Less
    } else {
        Ordering::Greater
    }
}

/// The literal version order: lexicographic over the 4-tuple
/// `(major, minor, patch, build)` in that field order, with `build` compared
/// as a raw string. An empty suffix therefore orders before any non-empty
/// one with the same numeric components; this is deliberate and differs from
/// conventional semantic-versioning precedence.
pub open spec fn spec_cmp(a: VersionView, b: VersionView) -> Ordering {
    if a.major != b.major {
        if a.major < b.major {
            Ordering::Less
        } else {
            Ordering::Greater
        }
    } else if a.minor != b.minor {
        if a.minor < b.minor {
            Ordering::Less
        } else {
            Ordering::Greater
        }
    } else if a.patch != b.patch {
        if a.patch < b.patch {
            Ordering::Less
        } else {
            Ordering::Greater
        }
    } else {
        lex_cmp_chars(a.build, b.build)
    }
}

/// The raw lexicographic comparison reports `Equal` exactly on equal
/// sequences.
proof fn lemma_lex_equal_iff(a: Seq<char>, b: Seq<char>)
    ensures
        (lex_cmp_chars(a, b) == Ordering::Equal) <==> (a == b),
    decreases a.len(),
{
    if a.len() == 0 && b.len() == 0 {
        assert(a =~= b);
    } else if a.len() == 0 || b.len() == 0 {
        // The lengths differ, so the sequences differ and the comparison
        // falls to one side.
    } else {
        lemma_lex_equal_iff(a.skip(1), b.skip(1));
        if a[0] == b[0] && lex_cmp_chars(a, b) == Ordering::Equal {
            assert forall|i: int| 0 <= i < a.len() implies a[i] == b[i] by {
                if i > 0 {
                    assert(a.skip(1)[i - 1] == a[i]);
                    assert(b.skip(1)[i - 1] == b[i]);
                }
            }
            assert(a =~= b);
        }
    }
}

/// Law: the comparison reports `Equal` exactly when the two versions agree in
/// all four fields — equality of versions is field-wise equality.
pub proof fn lemma_cmp_equal_iff_eq(a: VersionView, b: VersionView)
    ensures
        (spec_cmp(a, b) == Ordering::Equal) <==> (a == b),
{
    lemma_lex_equal_iff(a.build, b.build);
    if spec_cmp(a, b) == Ordering::Equal {
        assert(a =~= b);
    }
}

/// Swapping the operands reverses the raw lexicographic comparison.
proof fn lemma_lex_reverse(a: Seq<char>, b: Seq<char>)
    ensures
        lex_cmp_chars(b, a) == (match lex_cmp_chars(a, b) {
            Ordering::Less => Ordering::Greater,
            Ordering::Equal => Ordering::Equal,
            Ordering::Greater => Ordering::Less,
        }),
    decreases a.len(),
{
    if a.len() > 0 && b.len() > 0 {
        if a[0] == b[0] {
            lemma_lex_reverse(a.skip(1), b.skip(1));
        } else {
            // Distinct characters have distinct code points.
            vstd::utf8::char_u32_cast(a[0], a[0] as u32);
            vstd::utf8::char_u32_cast(b[0], b[0] as u32);
        }
    }
}

/// The raw lexicographic comparison is transitive in `Less`.
proof fn lemma_lex_transitive(a: Seq<char>, b: Seq<char>, c: Seq<char>)
    requires
        lex_cmp_chars(a, b) == Ordering::Less,
        lex_cmp_chars(b, c) == Ordering::Less,
    ensures
        lex_cmp_chars(a, c) == Ordering::Less,
    decreases a.len(),
{
    if a.len() > 0 && b.len() > 0 && c.len() > 0 && a[0] == b[0] && b[0] == c[0] {
        lemma_lex_transitive(a.skip(1), b.skip(1), c.skip(1));
    }
}

/// Law: swapping the operands reverses the comparison — the version order is
/// antisymmetric.
pub proof fn lemma_cmp_antisymmetric(a: VersionView, b: VersionView)
    ensures
        spec_cmp(b, a) == (match spec_cmp(a, b) {
            Ordering::Less => Ordering::Greater,
            Ordering::Equal => Ordering::Equal,
            Ordering::Greater => Ordering::Less,
        }),
{
    lemma_lex_reverse(a.build, b.build);
}

/// Law: the comparison is transitive; with antisymmetry and the equality law
/// it gives the total order over `(major, minor, patch, build)`.
pub proof fn lemma_cmp_transitive(a: VersionView, b: VersionView, c: VersionView)
    requires
        spec_cmp(a, b) == Ordering::Less,
        spec_cmp(b, c) == Ordering::Less,
    ensures
        spec_cmp(a, c) == Ordering::Less,
{
    if a.major == b.major && b.major == c.major && a.minor == b.minor && b.minor == c.minor
        && a.patch == b.patch && b.patch == c.patch {
        lemma_lex_transitive(a.build, b.build, c.build);
    }
}

/// A shared prefix of equal characters does not affect the raw lexicographic
/// comparison: it is decided by the remainders.
proof fn lemma_lex_cmp_skip(a: Seq<char>, b: Seq<char>, i: int)
    requires
        0 <= i <= a.len(),
        i <= b.len(),
        forall|j: int| 0 <= j < i ==> a[j] == b[j],
    ensures
        lex_cmp_chars(a, b) == lex_cmp_chars(a.skip(i), b.skip(i)),
    decreases i,
{
    if i == 0 {
        assert(a.skip(0) =~= a);
        assert(b.skip(0) =~= b);
    } else {
        assert(a[0] == b[0]);
        assert forall|j: int| 0 <= j < i - 1 implies a.skip(1)[j] == b.skip(1)[j] by {
            assert(a.skip(1)[j] == a[j + 1]);
            assert(b.skip(1)[j] == b[j + 1]);
        }
        lemma_lex_cmp_skip(a.skip(1), b.skip(1), i - 1);
        assert(a.skip(1).skip(i - 1) =~= a.skip(i));
        assert(b.skip(1).skip(i - 1) =~= b.skip(i));
    }
}

/// Compares two strings in raw lexicographic (code-point) order.
fn str_lex_cmp(a: &str, b: &str) -> (r: Ordering)
    ensures
        r == lex_cmp_chars(a@, b@),
{
    let na = a.unicode_len();
    let nb = b.unicode_len();
    let mut i: usize = 0;
    while i < na && i < nb
        invariant
            0 <= i <= na,
            i <= nb,
            na == a@.len(),
            nb == b@.len(),
            forall|j: int| 0 <= j < i ==> a@[j] == b@[j],
        decreases na - i,
    {
        let ca = a.get_char(i);
        let cb = b.get_char(i);
        if ca != cb {
            proof {
                lemma_lex_cmp_skip(a@, b@, i as int);
                assert(a@.skip(i as int)[0] == a@[i as int]);
                assert(b@.skip(i as int)[0] == b@[i as int]);
            }
            if (ca as u32) < (cb as u32) {
                return Ordering::Less;
            } else {
                return Ordering::Greater;
            }
        }
        i = i + 1;
    }
    proof {
        lemma_lex_cmp_skip(a@, b@, i as int);
        if i < na {
            assert(a@.skip(i as int)[0] == a@[i as int]);
        }
        if i < nb {
            assert(b@.skip(i as int)[0] == b@[i as int]);
        }
    }
    if na == nb {
        Ordering::Equal
    } else if na < nb {
        Ordering::Less
    } else {
        Ordering::Greater
    }
}

/// A build suffix that survives a round trip through display and parse: it
/// holds no dot (a dot would start a new, ignored segment) and does not begin
/// with a digit (a leading digit would be absorbed into the patch number).
pub open spec fn canonical_build(b: Seq<char>) -> bool {
    &&& forall|i: int| 0 <= i < b.len() ==> b[i] != '.'
    &&& b.len() > 0 ==> !is_digit_char(b[0])
}

/// Law: parsing the display of any version whose build suffix is canonical
/// gives back exactly that version.
pub proof fn lemma_display_then_parse(v: VersionView)
    requires
        canonical_build(v.build),
    ensures
        spec_parse(spec_display(v)) == Ok::<VersionView, ParseError>(v),
{
    let md = dec_digits(v.major as int);
    let nd = dec_digits(v.minor as int);
    let pd = dec_digits(v.patch as int);
    lemma_dec_digits(v.major as int);
    lemma_dec_digits(v.minor as int);
    lemma_dec_digits(v.patch as int);
    let s = spec_display(v);
    let dot = seq!['.'];
    assert(s == md + dot + nd + dot + pd + v.build);

    // The first dot closes the major segment.
    assert forall|j: int| 0 <= j < md.len() implies s[j] != '.' by {
        assert(s[j] == md[j]);
        assert(is_digit_char(md[j]));
    }
    assert(s[md.len() as int] == '.');
    lemma_first_dot(s);
    let d1 = first_dot(s);
    assert(d1 == md.len());
    assert(s.take(d1) =~= md);
    assert(parse_u16_spec(md) == Ok::<u16, ParseError>(v.major));
    assert(d1 < s.len());

    // The second dot closes the minor segment of the remainder.
    let r1 = s.skip(d1 + 1);
    assert(r1 =~= nd + dot + pd + v.build);
    assert forall|j: int| 0 <= j < nd.len() implies r1[j] != '.' by {
        assert(r1[j] == nd[j]);
        assert(is_digit_char(nd[j]));
    }
    assert(r1[nd.len() as int] == '.');
    lemma_first_dot(r1);
    let d2 = first_dot(r1);
    assert(d2 == nd.len());
    assert(r1.take(d2) =~= nd);
    assert(parse_u16_spec(nd) == Ok::<u16, ParseError>(v.minor));
    assert(d2 < r1.len());

    // The third segment is the patch digits followed by the suffix, whole:
    // no dot stands in either.
    let r2 = r1.skip(d2 + 1);
    assert(r2 =~= pd + v.build);
    assert forall|j: int| 0 <= j < r2.len() implies r2[j] != '.' by {
        if j < pd.len() {
            assert(r2[j] == pd[j]);
            assert(is_digit_char(pd[j]));
        } else {
            assert(r2[j] == v.build[j - pd.len()]);
        }
    }
    lemma_first_dot(r2);
    assert(first_dot(r2) == r2.len());
    let seg3 = r2.take(first_dot(r2));
    assert(seg3 =~= r2);

    // The digit run of the third segment is exactly the patch digits.
    lemma_digit_run(r2);
    assert forall|j: int| 0 <= j < pd.len() implies is_digit_char(#[trigger] r2[j]) by {
        assert(r2[j] == pd[j]);
    }
    if v.build.len() > 0 {
        assert(r2[pd.len() as int] == v.build[0]);
    }
    let k = digit_run(r2);
    assert(k == pd.len());
    assert(r2.take(k) =~= pd);
    assert(r2.skip(k) =~= v.build);
    assert(split_patch_spec(r2) == Ok::<(u16, Seq<char>), ParseError>((v.patch, v.build)));

    assert(spec_parse(s)->Ok_0 =~= v);
}

/// Law: with equal numeric components, an empty build suffix orders strictly
/// before any non-empty one — the empty string is a prefix of every string.
/// This is the literal rule, the opposite of conventional semantic-versioning
/// precedence, and is kept deliberately.
pub proof fn lemma_empty_build_sorts_first(a: VersionView, b: VersionView)
    requires
        a.major == b.major,
        a.minor == b.minor,
        a.patch == b.patch,
        a.build.len() == 0,
        b.build.len() > 0,
    ensures
        spec_cmp(a, b) == Ordering::Less,
        spec_cmp(b, a) == Ordering::Greater,
{
}

/// Law: display after parse is the identity on canonical strings, that is,
/// on every string that is the display of a version with a canonical build
/// suffix.
pub proof fn lemma_parse_then_display(s: Seq<char>, v: VersionView)
    requires
        canonical_build(v.build),
        s == spec_display(v),
    ensures
        spec_parse(s) matches Ok(w) && spec_display(w) == s,
{
    lemma_display_then_parse(v);
}

/// Law: every successfully parsed version carries a canonical build suffix,
/// so re-parsing its display gives the same version back; parsing is
/// idempotent across a display round trip.
pub proof fn lemma_parse_canonical(s: Seq<char>)
    requires
        spec_parse(s) matches Ok(_),
    ensures
        canonical_build(spec_parse(s)->Ok_0.build),
        spec_parse(spec_display(spec_parse(s)->Ok_0)) == spec_parse(s),
{
    let v = spec_parse(s)->Ok_0;
    let d1 = first_dot(s);
    if d1 == s.len() {
        assert(v.build =~= Seq::<char>::empty());
    } else {
        let r1 = s.skip(d1 + 1);
        let d2 = first_dot(r1);
        if d2 == r1.len() {
            assert(v.build =~= Seq::<char>::empty());
        } else {
            let r2 = r1.skip(d2 + 1);
            let seg3 = r2.take(first_dot(r2));
            lemma_first_dot(r2);
            lemma_digit_run(seg3);
            let k = digit_run(seg3);
            assert(v.build == seg3.skip(k));
            assert forall|i: int| 0 <= i < v.build.len() implies v.build[i] != '.' by {
                assert(v.build[i] == seg3[k + i]);
                assert(seg3[k + i] == r2[k + i]);
            }
            if v.build.len() > 0 {
                assert(v.build[0] == seg3[k as int]);
                assert(!is_digit_char(seg3[k as int]));
            }
        }
    }
    lemma_display_then_parse(v);
}

impl PartialEq for Version {
    /// Two versions are equal exactly when all four fields are equal.
    fn eq(&self, other: &Version) -> (r: bool) {
        let r = self.major == other.major && self.minor == other.minor && self.patch
            == other.patch && self.build == other.build;
        proof {
            if r {
                assert(self@ =~= other@);
            }
        }
        r
    }
}

impl vstd::std_specs::cmp::PartialEqSpecImpl for Version {
    open spec fn obeys_eq_spec() -> bool {
        true
    }

    open spec fn eq_spec(&self, other: &Version) -> bool {
        self@ == other@
    }
}

impl PartialOrd for Version {
    /// The total comparison that `spec_cmp` states, wrapped in `Some`.
    fn partial_cmp(&self, other: &Version) -> (r: Option<Ordering>) {
        Some(self.compare(other))
    }
}

impl vstd::std_specs::cmp::PartialOrdSpecImpl for Version {
    open spec fn obeys_partial_cmp_spec() -> bool {
        true
    }

    open spec fn partial_cmp_spec(&self, other: &Version) -> Option<Ordering> {
        Some(spec_cmp(self@, other@))
    }
}

} // verus!
