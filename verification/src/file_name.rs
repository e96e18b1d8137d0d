//! Artifact names as file names, and back.
//!
//! A file name is the sequence number, at least four digits wide, the tag
//! of the kind and the pass name, joined by hyphens, then the extension
//! and, for a compressed artifact, the suffix of the codec.

use vstd::prelude::*;
use vstd::string::*;
use crate::marker::{find_char, first_char, kind_of_tag, matches_at, occurs_at, LogKind};
use crate::namer::{sorts_before, ArtifactName, ArtifactNameView};

verus! {

/// The decimal digit `d`.
pub open spec fn digit_spec(d: nat) -> Seq<char> {
    if d == 0 {
        "0"@
    } else if d == 1 {
        "1"@
    } else if d == 2 {
        "2"@
    } else if d == 3 {
        "3"@
    } else if d == 4 {
        "4"@
    } else if d == 5 {
        "5"@
    } else if d == 6 {
        "6"@
    } else if d == 7 {
        "7"@
    } else if d == 8 {
        "8"@
    } else {
        "9"@
    }
}

/// `n` in decimal, without leading zeros.
pub open spec fn decimal_spec(n: nat) -> Seq<char>
    decreases n,
{
    if n < 10 {
        digit_spec(n)
    } else {
        decimal_spec(n / 10) + digit_spec(n % 10)
    }
}

/// The zeros that bring `n` to four digits.
pub open spec fn padding_spec(n: nat) -> Seq<char> {
    if n < 10 {
        "000"@
    } else if n < 100 {
        "00"@
    } else if n < 1000 {
        "0"@
    } else {
        Seq::empty()
    }
}

/// The suffix of a compressed artifact, or nothing.
pub open spec fn suffix_spec(compressed: bool) -> Seq<char> {
    if compressed {
        ".zst"@
    } else {
        Seq::empty()
    }
}

/// The file name for sequence number `num`, descriptive name `name` and
/// extension `ext`.
pub open spec fn file_name_spec(num: nat, name: Seq<char>, ext: Seq<char>, compressed: bool) -> Seq<
    char,
> {
    padding_spec(num) + decimal_spec(num) + "-"@ + name + "."@ + ext + suffix_spec(compressed)
}

/// The descriptive part of a dump's file name: the tag of its kind, a
/// hyphen and the pass name.
pub open spec fn descriptive_spec(name: ArtifactNameView) -> Seq<char> {
    name.kind.short_spec() + "-"@ + name.pass_name
}

fn digit_text(d: usize) -> (text: &'static str)
    requires
        d < 10,
    ensures
        text@ == digit_spec(d as nat),
{
    if d == 0 {
        "0"
    } else if d == 1 {
        "1"
    } else if d == 2 {
        "2"
    } else if d == 3 {
        "3"
    } else if d == 4 {
        "4"
    } else if d == 5 {
        "5"
    } else if d == 6 {
        "6"
    } else if d == 7 {
        "7"
    } else if d == 8 {
        "8"
    } else {
        "9"
    }
}

/// Writes `n` in decimal.
pub fn decimal(n: usize) -> (text: String)
    ensures
        text@ == decimal_spec(n as nat),
    decreases n,
{
    if n < 10 {
        String::from_str(digit_text(n))
    } else {
        decimal(n / 10).concat(digit_text(n % 10))
    }
}

/// The file name of an artifact: `num` at least four digits wide, a hyphen,
/// `name`, a dot and `ext`, and `.zst` behind that if it is compressed.
pub fn file_name(num: usize, name: &str, ext: &str, compressed: bool) -> (text: String)
    ensures
        text@ == file_name_spec(num as nat, name@, ext@, compressed),
{
    let mut out = String::new();
    if num < 10 {
        out.append("000");
    } else if num < 100 {
        out.append("00");
    } else if num < 1000 {
        out.append("0");
    }
    assert(out@ =~= padding_spec(num as nat));
    let digits = decimal(num);
    out.append(digits.as_str());
    out.append("-");
    out.append(name);
    out.append(".");
    out.append(ext);
    if compressed {
        out.append(".zst");
    }
    assert(out@ =~= file_name_spec(num as nat, name@, ext@, compressed));
    out
}

/// The file name of the prelude, the content in front of the first marker.
pub fn prelude_file_name(compressed: bool) -> (text: String)
    ensures
        text@ == file_name_spec(0, "prelude"@, "txt"@, compressed),
{
    file_name(0, "prelude", "txt", compressed)
}

impl ArtifactName {
    /// The file name of this dump.
    pub fn file_name(&self, compressed: bool) -> (text: String)
        ensures
            text@ == file_name_spec(
                self@.sequence,
                descriptive_spec(self@),
                "mlir"@,
                compressed,
            ),
    {
        let mut descriptive = String::from_str(self.kind.short());
        descriptive.append("-");
        descriptive.append(self.pass_name.as_str());
        file_name(self.sequence, descriptive.as_str(), "mlir", compressed)
    }
}

/// Whether `c` is a decimal digit.
pub open spec fn is_digit(c: char) -> bool {
    '0' <= c <= '9'
}

/// The number that the digits of `s` write.
pub open spec fn decimal_value(s: Seq<char>) -> nat
    decreases s.len(),
{
    if s.len() == 0 {
        0
    } else {
        decimal_value(s.drop_last()) * 10 + (s.last() as u32 - '0' as u32) as nat
    }
}

/// Whether `s` is a number: one digit or more, and digits only.
pub open spec fn is_number(s: Seq<char>) -> bool {
    s.len() > 0 && forall|i: int| 0 <= i < s.len() ==> is_digit(#[trigger] s[i])
}

/// Whether a file name ends as a dump does, compressed or not.
pub open spec fn has_dump_extension(s: Seq<char>) -> bool {
    occurs_at(s, s.len() - ".mlir"@.len(), ".mlir"@) || occurs_at(
        s,
        s.len() - ".mlir.zst"@.len(),
        ".mlir.zst"@,
    )
}

/// The artifact name that a file name holds.
///
/// The file name must end as a dump does and hold exactly two hyphens. In
/// front of the first stands the sequence number, between them the tag of
/// the kind, and behind the second the pass name, which ends at the first
/// dot.
pub open spec fn parse_file_name_spec(s: Seq<char>) -> Option<ArtifactNameView> {
    let a = find_char(s, '-', 0);
    let b = find_char(s, '-', a + 1);
    let c = find_char(s, '-', b + 1);
    let d = find_char(s, '.', b + 1);
    if has_dump_extension(s) && a < s.len() && b < s.len() && c >= s.len() && d < s.len()
        && is_number(s.subrange(0, a)) && decimal_value(s.subrange(0, a)) <= usize::MAX
        && kind_of_tag(s.subrange(a + 1, b)) is Some {
        Some(
            ArtifactNameView {
                sequence: decimal_value(s.subrange(0, a)),
                kind: kind_of_tag(s.subrange(a + 1, b))->0,
                pass_name: s.subrange(b + 1, d),
            },
        )
    } else {
        None
    }
}

proof fn lemma_decimal_value_grows(s: Seq<char>, i: int)
    requires
        0 <= i <= s.len(),
        forall|j: int| 0 <= j < s.len() ==> is_digit(#[trigger] s[j]),
    ensures
        decimal_value(s.subrange(0, i)) <= decimal_value(s),
    decreases s.len() - i,
{
    if i < s.len() {
        let t = s.drop_last();
        assert(is_digit(s[s.len() - 1]));
        assert forall|j: int| 0 <= j < t.len() implies is_digit(#[trigger] t[j]) by {
            assert(t[j] == s[j]);
        }
        lemma_decimal_value_grows(t, i);
        assert(t.subrange(0, i) =~= s.subrange(0, i));
    } else {
        assert(s.subrange(0, i) =~= s);
    }
}

/// Reads a number: `Some` for one digit or more, digits only, that write a
/// number the machine can hold.
pub fn parse_number(s: &str) -> (value: Option<usize>)
    ensures
        value is Some == (is_number(s@) && decimal_value(s@) <= usize::MAX),
        value matches Some(v) ==> v == decimal_value(s@),
{
    let n: usize = s.unicode_len();
    if n == 0 {
        return None;
    }
    let mut acc: usize = 0;
    let mut i: usize = 0;
    assert(s@.subrange(0, 0) =~= Seq::empty());
    while i < n
        invariant
            n == s@.len(),
            i <= n,
            forall|j: int| 0 <= j < i ==> is_digit(#[trigger] s@[j]),
            acc == decimal_value(s@.subrange(0, i as int)),
        decreases n - i,
    {
        let c: char = s.get_char(i);
        if !('0' <= c && c <= '9') {
            return None;
        }
        let d: usize = (c as u32 - '0' as u32) as usize;
        proof {
            let next = s@.subrange(0, i + 1);
            assert(next.drop_last() =~= s@.subrange(0, i as int));
            assert(next.last() == c);
        }
        if acc > (usize::MAX - d) / 10 {
            proof {
                if is_number(s@) {
                    lemma_decimal_value_grows(s@, i + 1);
                }
            }
            return None;
        }
        acc = acc * 10 + d;
        i = i + 1;
    }
    assert(s@.subrange(0, n as int) =~= s@);
    Some(acc)
}

/// Reads the file name of a dump back into its artifact name. `None` for a
/// file that is no dump: the prelude, a file with another extension, or a
/// name that does not hold a number, a kind tag and a pass name.
pub fn parse_file_name(file_name: &str) -> (name: Option<ArtifactName>)
    ensures
        name is Some == parse_file_name_spec(file_name@) is Some,
        name matches Some(n) ==> n@ == parse_file_name_spec(file_name@)->0,
{
    let n: usize = file_name.unicode_len();
    let plain = ".mlir";
    let packed = ".mlir.zst";
    let pn: usize = plain.unicode_len();
    let zn: usize = packed.unicode_len();
    if !((n >= pn && matches_at(file_name, n - pn, plain)) || (n >= zn && matches_at(
        file_name,
        n - zn,
        packed,
    ))) {
        return None;
    }
    let a: usize = first_char(file_name, '-', 0);
    if a >= n {
        return None;
    }
    let b: usize = first_char(file_name, '-', a + 1);
    if b >= n {
        return None;
    }
    let c: usize = first_char(file_name, '-', b + 1);
    if c < n {
        return None;
    }
    let d: usize = first_char(file_name, '.', b + 1);
    if d >= n {
        return None;
    }
    let sequence = match parse_number(file_name.substring_char(0, a)) {
        Some(v) => v,
        None => {
            return None;
        },
    };
    let kind = match LogKind::from_short(file_name.substring_char(a + 1, b)) {
        Some(k) => k,
        None => {
            return None;
        },
    };
    Some(
        ArtifactName {
            sequence,
            kind,
            pass_name: String::from_str(file_name.substring_char(b + 1, d)),
        },
    )
}

proof fn lemma_find_char_is(s: Seq<char>, c: char, from: int, k: int)
    requires
        0 <= from <= k <= s.len(),
        forall|j: int| from <= j < k ==> s[j] != c,
        k == s.len() || s[k] == c,
    ensures
        find_char(s, c, from) == k,
    decreases k - from,
{
    if from < k {
        lemma_find_char_is(s, c, from + 1, k);
    }
}

proof fn lemma_digit_text(d: nat)
    requires
        d < 10,
    ensures
        digit_spec(d).len() == 1,
        is_digit(digit_spec(d)[0]),
        (digit_spec(d)[0] as u32 - '0' as u32) as nat == d,
{
    reveal_strlit("0");
    reveal_strlit("1");
    reveal_strlit("2");
    reveal_strlit("3");
    reveal_strlit("4");
    reveal_strlit("5");
    reveal_strlit("6");
    reveal_strlit("7");
    reveal_strlit("8");
    reveal_strlit("9");
}

/// What `decimal_spec` writes is a number, and it reads back as the number
/// that was written.
pub proof fn lemma_decimal_reads_back(n: nat)
    ensures
        is_number(decimal_spec(n)),
        decimal_value(decimal_spec(n)) == n,
    decreases n,
{
    if n < 10 {
        lemma_digit_text(n);
        let t = decimal_spec(n);
        assert(t.drop_last() =~= Seq::empty());
        assert(decimal_value(t.drop_last()) == 0);
    } else {
        lemma_decimal_reads_back(n / 10);
        lemma_digit_text(n % 10);
        let x = decimal_spec(n / 10);
        let y = digit_spec(n % 10);
        let t = x + y;
        assert(t.drop_last() =~= x);
        assert(t.last() == y[0]);
        assert forall|i: int| 0 <= i < t.len() implies is_digit(#[trigger] t[i]) by {
            if i < x.len() {
                assert(t[i] == x[i]);
            }
        }
    }
}

proof fn lemma_leading_zeros(z: Seq<char>, x: Seq<char>)
    requires
        forall|i: int| 0 <= i < z.len() ==> z[i] == '0',
    ensures
        decimal_value(z + x) == decimal_value(x),
    decreases x.len(), z.len(),
{
    if x.len() > 0 {
        lemma_leading_zeros(z, x.drop_last());
        assert((z + x).drop_last() =~= z + x.drop_last());
        assert((z + x).last() == x.last());
    } else if z.len() > 0 {
        assert(z + x =~= z);
        lemma_leading_zeros(z.drop_last(), x);
        assert(z.drop_last() + x =~= z.drop_last());
    } else {
        assert(z + x =~= x);
    }
}

/// The file name of a dump reads back as the artifact name it was written
/// for, provided that the pass name holds neither a hyphen nor a dot and
/// the sequence number is one the machine can hold.
#[verifier::rlimit(60)]
pub proof fn lemma_file_name_reads_back(name: ArtifactNameView, compressed: bool)
    requires
        name.sequence <= usize::MAX,
        forall|i: int|
            0 <= i < name.pass_name.len() ==> name.pass_name[i] != '-' && name.pass_name[i] != '.',
    ensures
        parse_file_name_spec(
            file_name_spec(name.sequence, descriptive_spec(name), "mlir"@, compressed),
        ) == Some(name),
{
    reveal_strlit("000");
    reveal_strlit("00");
    reveal_strlit("0");
    reveal_strlit("-");
    reveal_strlit(".");
    reveal_strlit("mlir");
    reveal_strlit(".zst");
    reveal_strlit(".mlir");
    reveal_strlit(".mlir.zst");
    reveal_strlit("0b");
    reveal_strlit("1a");
    reveal_strlit("2u");
    let pad = padding_spec(name.sequence);
    let dec = decimal_spec(name.sequence);
    let tag = name.kind.short_spec();
    let pass = name.pass_name;
    let tail = "."@ + "mlir"@ + suffix_spec(compressed);
    let s = file_name_spec(name.sequence, descriptive_spec(name), "mlir"@, compressed);
    let a = (pad.len() + dec.len()) as int;
    let b = a + 3;
    let d = b + 1 + pass.len();
    lemma_decimal_reads_back(name.sequence);
    lemma_leading_zeros(pad, dec);
    crate::marker::lemma_tag_reads_back(name.kind);
    assert(s =~= (pad + dec) + "-"@ + tag + "-"@ + pass + tail);
    assert(s.len() == d + tail.len());
    assert(s.subrange(0, a) =~= pad + dec);
    assert forall|j: int| 0 <= j < a implies is_digit(#[trigger] s[j]) by {
        if j >= pad.len() {
            assert(s[j] == dec[j - pad.len()]);
        }
    }
    assert(s[a] == '-');
    assert(s.subrange(a + 1, b) =~= tag);
    assert(s[b] == '-');
    assert(s.subrange(b + 1, d) =~= pass);
    assert(s[d] == '.');
    assert forall|j: int| d <= j < s.len() implies s[j] != '-' by {
        assert(s[j] == tail[j - d]);
    }
    assert forall|j: int| 0 <= j < a implies s[j] != '-' by {
        assert(is_digit(s[j]));
    }
    assert forall|j: int| b + 1 <= j < s.len() implies s[j] != '-' by {
        if j < d {
            assert(s[j] == pass[j - (b + 1)]);
        }
    }
    assert forall|j: int| b + 1 <= j < d implies s[j] != '.' by {
        assert(s[j] == pass[j - (b + 1)]);
    }
    assert(s[a + 1] != '-' && s[a + 2] != '-') by {
        assert(s[a + 1] == tag[0]);
        assert(s[a + 2] == tag[1]);
    }
    lemma_find_char_is(s, '-', 0, a);
    lemma_find_char_is(s, '-', a + 1, b);
    lemma_find_char_is(s, '-', b + 1, s.len() as int);
    lemma_find_char_is(s, '.', b + 1, d);
    if compressed {
        assert(s.subrange(s.len() - 9, s.len() as int) =~= ".mlir.zst"@);
    } else {
        assert(s.subrange(s.len() - 5, s.len() as int) =~= ".mlir"@);
    }
    assert(has_dump_extension(s));
}

/// Whether `a` and `b` agree in front of place `k` and `a` is the lesser
/// there: it ends, or holds the lesser character.
pub open spec fn lesser_at(a: Seq<char>, b: Seq<char>, k: int) -> bool {
    &&& 0 <= k <= a.len()
    &&& k < b.len()
    &&& a.subrange(0, k) == b.subrange(0, k)
    &&& k < a.len() ==> a[k] < b[k]
}

/// Whether text `a` sorts strictly before text `b`, as strings do.
pub open spec fn text_before(a: Seq<char>, b: Seq<char>) -> bool {
    exists|k: int| lesser_at(a, b, k)
}

proof fn lemma_digits_ascend(d: nat, e: nat)
    requires
        d < e < 10,
    ensures
        digit_spec(d)[0] < digit_spec(e)[0],
{
    reveal_strlit("0");
    reveal_strlit("1");
    reveal_strlit("2");
    reveal_strlit("3");
    reveal_strlit("4");
    reveal_strlit("5");
    reveal_strlit("6");
    reveal_strlit("7");
    reveal_strlit("8");
    reveal_strlit("9");
}

proof fn lemma_four_digits(n: nat)
    requires
        n < 10000,
    ensures
        n == 1000 * (n / 1000) + 100 * ((n / 100) % 10) + 10 * ((n / 10) % 10) + n % 10,
        n / 1000 < 10,
        ({
            let t = padding_spec(n) + decimal_spec(n);
            &&& t.len() == 4
            &&& t[0] == digit_spec(n / 1000)[0]
            &&& t[1] == digit_spec((n / 100) % 10)[0]
            &&& t[2] == digit_spec((n / 10) % 10)[0]
            &&& t[3] == digit_spec(n % 10)[0]
        }),
{
    reveal_strlit("000");
    reveal_strlit("00");
    reveal_strlit("0");
    reveal_with_fuel(decimal_spec, 4);
    let m = n as u32;
    assert(m < 10000 ==> m == 1000 * (m / 1000) + 100 * ((m / 100) % 10) + 10 * ((m / 10) % 10) + m
        % 10 && m / 1000 < 10 && (m / 10) / 10 == m / 100 && (m / 100) / 10 == m / 1000)
        by (bit_vector);
    lemma_digit_text(n % 10);
    lemma_digit_text((n / 10) % 10);
    lemma_digit_text((n / 100) % 10);
    lemma_digit_text(n / 1000);
}

/// As long as the sequence numbers have no more than four digits, the file
/// names of two dumps sort as their artifact names do, by sequence number
/// and then by kind, whatever the pass names are.
pub proof fn lemma_file_names_sort_as_names(
    x: ArtifactNameView,
    y: ArtifactNameView,
    x_compressed: bool,
    y_compressed: bool,
)
    requires
        x.sequence < 10000,
        y.sequence < 10000,
        sorts_before(x, y),
    ensures
        text_before(
            file_name_spec(x.sequence, descriptive_spec(x), "mlir"@, x_compressed),
            file_name_spec(y.sequence, descriptive_spec(y), "mlir"@, y_compressed),
        ),
{
    reveal_strlit("-");
    reveal_strlit("0b");
    reveal_strlit("1a");
    reveal_strlit("2u");
    let a = file_name_spec(x.sequence, descriptive_spec(x), "mlir"@, x_compressed);
    let b = file_name_spec(y.sequence, descriptive_spec(y), "mlir"@, y_compressed);
    let px = padding_spec(x.sequence) + decimal_spec(x.sequence);
    let py = padding_spec(y.sequence) + decimal_spec(y.sequence);
    let rx = x.kind.short_spec() + "-"@ + x.pass_name + "."@ + "mlir"@ + suffix_spec(x_compressed);
    let ry = y.kind.short_spec() + "-"@ + y.pass_name + "."@ + "mlir"@ + suffix_spec(y_compressed);
    lemma_four_digits(x.sequence);
    lemma_four_digits(y.sequence);
    assert(a =~= px + "-"@ + rx);
    assert(b =~= py + "-"@ + ry);
    assert forall|i: int| 0 <= i < 4 implies a[i] == px[i] && b[i] == py[i] by {}
    assert(a[4] == '-' && b[4] == '-');
    assert(a[5] == x.kind.short_spec()[0] && b[5] == y.kind.short_spec()[0]);
    let k: int = if a[0] != b[0] {
        0
    } else if a[1] != b[1] {
        1
    } else if a[2] != b[2] {
        2
    } else if a[3] != b[3] {
        3
    } else {
        5
    };
    assert(a.subrange(0, k) =~= b.subrange(0, k));
    if x.sequence == y.sequence {
        assert(a[5] < b[5]);
    } else {
        let m = x.sequence;
        let n = y.sequence;
        let (m3, m2, m1, m0) = (m / 1000, (m / 100) % 10, (m / 10) % 10, m % 10);
        let (n3, n2, n1, n0) = (n / 1000, (n / 100) % 10, (n / 10) % 10, n % 10);
        if a[0] != b[0] {
            assert(m3 < n3);
            lemma_digits_ascend(m3, n3);
        } else if a[1] != b[1] {
            if m3 < n3 {
                lemma_digits_ascend(m3, n3);
            }
            assert(m2 < n2);
            lemma_digits_ascend(m2, n2);
        } else if a[2] != b[2] {
            if m3 < n3 {
                lemma_digits_ascend(m3, n3);
            }
            if m2 < n2 {
                lemma_digits_ascend(m2, n2);
            }
            assert(m1 < n1);
            lemma_digits_ascend(m1, n1);
        } else {
            if m3 < n3 {
                lemma_digits_ascend(m3, n3);
            }
            if m2 < n2 {
                lemma_digits_ascend(m2, n2);
            }
            if m1 < n1 {
                lemma_digits_ascend(m1, n1);
            }
            assert(m0 < n0);
            lemma_digits_ascend(m0, n0);
        }
    }
    assert(lesser_at(a, b, k));
}

} // verus!
