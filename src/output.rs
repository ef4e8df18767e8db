use vstd::prelude::*;
use vstd::utf8::valid_utf8;

use crate::command::{decimal, digit_char};

verus! {

/// Screen size in pixels.
#[derive(Clone, Copy, Debug, PartialEq, Eq, Structural)]
pub struct Dimensions {
    pub width: u32,
    pub height: u32,
}

/// Why an operation on the device did not complete.
#[derive(Clone, Copy, Debug, PartialEq, Eq, Structural)]
pub enum ControlError {
    /// No device matching the request could be selected.
    DeviceUnavailable,
    /// The shell command could not be run or its output not be read.
    CommandFailed,
    /// The command's output is not valid UTF-8.
    OutputNotUtf8,
    /// The `Physical size:` line does not hold `<width>x<height>`.
    MalformedSize,
}

/// `s` cut at every `sep`, keeping empty pieces: `k` separators give `k + 1` pieces.
pub open spec fn split(s: Seq<u8>, sep: u8) -> Seq<Seq<u8>>
    decreases s.len(),
{
    if s.len() == 0 {
        seq![Seq::empty()]
    } else {
        let rest = split(s.drop_last(), sep);
        if s.last() == sep {
            rest.push(Seq::empty())
        } else {
            rest.update(rest.len() - 1, rest.last().push(s.last()))
        }
    }
}

/// Splitting always yields at least one piece.
pub proof fn lemma_split_nonempty(s: Seq<u8>, sep: u8)
    ensures
        split(s, sep).len() >= 1,
    decreases s.len(),
{
    if s.len() > 0 {
        lemma_split_nonempty(s.drop_last(), sep);
    }
}

/// Cuts `s` at every `sep`, keeping empty pieces.
pub fn split_bytes(s: &[u8], sep: u8) -> (r: Vec<Vec<u8>>)
    ensures
        r.deep_view() == split(s@, sep),
{
    let mut done: Vec<Vec<u8>> = Vec::new();
    let mut current: Vec<u8> = Vec::new();
    let mut i: usize = 0;
    assert(current.deep_view() =~= Seq::<u8>::empty());
    assert(done.deep_view() =~= Seq::<Seq<u8>>::empty());
    assert(s@.take(0) =~= Seq::<u8>::empty());
    assert(done.deep_view().push(current.deep_view()) =~= split(s@.take(0), sep));
    while i < s.len()
        invariant
            i <= s@.len(),
            done.deep_view().push(current.deep_view()) == split(s@.take(i as int), sep),
        decreases s@.len() - i,
    {
        let b = s[i];
        proof {
            assert(s@.take(i as int + 1).drop_last() =~= s@.take(i as int));
            lemma_split_nonempty(s@.take(i as int), sep);
        }
        if b == sep {
            let ghost prev = done.deep_view().push(current.deep_view());
            let ghost old_done = done.deep_view();
            let ghost old_cur = current.deep_view();
            done.push(current);
            assert(done.deep_view() =~= old_done.push(old_cur));
            current = Vec::new();
            assert(current.deep_view() =~= Seq::<u8>::empty());
            assert(done.deep_view().push(current.deep_view()) =~= prev.push(Seq::empty()));
        } else {
            let ghost prev = done.deep_view().push(current.deep_view());
            let ghost old_cur = current.deep_view();
            current.push(b);
            assert(current.deep_view() =~= old_cur.push(b));
            assert(done.deep_view().push(current.deep_view()) =~= prev.update(
                prev.len() - 1,
                prev.last().push(b),
            ));
        }
        i = i + 1;
    }
    assert(s@.take(i as int) =~= s@);
    let ghost old_done = done.deep_view();
    let ghost old_cur = current.deep_view();
    done.push(current);
    assert(done.deep_view() =~= old_done.push(old_cur));
    done
}

/// `pat` stands in `s` at position `i`.
pub open spec fn occurs_at(s: Seq<u8>, pat: Seq<u8>, i: int) -> bool {
    0 <= i && i + pat.len() <= s.len() && s.subrange(i, i + pat.len()) == pat
}

/// `pat` stands somewhere in `s`.
pub open spec fn contains(s: Seq<u8>, pat: Seq<u8>) -> bool {
    exists|i: int| occurs_at(s, pat, i)
}

fn matches_at(s: &[u8], pat: &[u8], i: usize) -> (r: bool)
    requires
        i + pat@.len() <= s@.len(),
    ensures
        r == (s@.subrange(i as int, i + pat@.len()) == pat@),
{
    let n = s.len();
    let mut k: usize = 0;
    while k < pat.len()
        invariant
            k <= pat@.len(),
            n == s@.len(),
            i + pat@.len() <= n,
            forall|j: int| 0 <= j < k ==> s@[i + j] == pat@[j],
        decreases pat@.len() - k,
    {
        if s[i + k] != pat[k] {
            assert(s@.subrange(i as int, i + pat@.len())[k as int] != pat@[k as int]);
            return false;
        }
        k = k + 1;
    }
    assert(s@.subrange(i as int, i + pat@.len()) =~= pat@);
    true
}

/// Whether `pat` stands somewhere in `s`.
pub fn contains_bytes(s: &[u8], pat: &[u8]) -> (r: bool)
    ensures
        r == contains(s@, pat@),
{
    if pat.len() > s.len() {
        return false;
    }
    let last = s.len() - pat.len();
    let mut i: usize = 0;
    loop
        invariant
            i <= last,
            last == s@.len() - pat@.len(),
            forall|j: int| 0 <= j < i ==> !occurs_at(s@, pat@, j),
        decreases last - i,
    {
        if matches_at(s, pat, i) {
            assert(occurs_at(s@, pat@, i as int));
            return true;
        }
        if i == last {
            assert forall|j: int| !occurs_at(s@, pat@, j) by {
                if 0 <= j < i {
                }
            }
            return false;
        }
        i = i + 1;
    }
}

/// An ASCII decimal digit.
pub open spec fn is_digit(b: u8) -> bool {
    48 <= b <= 57
}

/// The number that a run of ASCII digits spells, most significant first.
pub open spec fn digits_value(s: Seq<u8>) -> nat
    decreases s.len(),
{
    if s.len() == 0 {
        0
    } else {
        digits_value(s.drop_last()) * 10 + (s.last() - 48) as nat
    }
}

/// `s` without one leading `+`.
pub open spec fn unsigned_digits(s: Seq<u8>) -> Seq<u8> {
    if s.len() > 0 && s[0] == 43 {
        s.drop_first()
    } else {
        s
    }
}

/// An unsigned 32-bit number in decimal, with an optional leading `+`; `None`
/// when a digit is missing, a byte is not a digit, or the value exceeds `u32::MAX`.
pub open spec fn parse_decimal(s: Seq<u8>) -> Option<u32> {
    let d = unsigned_digits(s);
    if d.len() > 0 && (forall|i: int| 0 <= i < d.len() ==> is_digit(#[trigger] d[i]))
        && digits_value(d) <= u32::MAX {
        Some(digits_value(d) as u32)
    } else {
        None
    }
}

proof fn lemma_digits_prefix(s: Seq<u8>, k: int)
    requires
        0 <= k <= s.len(),
        forall|i: int| 0 <= i < s.len() ==> is_digit(#[trigger] s[i]),
    ensures
        digits_value(s.take(k)) <= digits_value(s),
    decreases s.len(),
{
    if k < s.len() {
        let t = s.drop_last();
        assert(t.take(k) =~= s.take(k));
        lemma_digits_prefix(t, k);
    } else {
        assert(s.take(k) =~= s);
    }
}

/// Reads an unsigned 32-bit decimal number.
pub fn parse_u32(s: &[u8]) -> (r: Option<u32>)
    ensures
        r == parse_decimal(s@),
{
    let mut start: usize = 0;
    if s.len() > 0 && s[0] == 43 {
        start = 1;
    }
    let ghost d = unsigned_digits(s@);
    assert(d =~= s@.subrange(start as int, s@.len() as int));
    if start >= s.len() {
        return None;
    }
    let mut acc: u64 = 0;
    let mut i: usize = start;
    assert(s@.subrange(start as int, start as int) =~= Seq::<u8>::empty());
    while i < s.len()
        invariant
            start <= i <= s@.len(),
            d == s@.subrange(start as int, s@.len() as int),
            d == unsigned_digits(s@),
            acc == digits_value(s@.subrange(start as int, i as int)),
            acc <= u32::MAX,
            forall|j: int| start <= j < i ==> is_digit(#[trigger] s@[j]),
        decreases s@.len() - i,
    {
        let b = s[i];
        if b < 48 || b > 57 {
            assert(d[i - start] == b);
            assert(!is_digit(d[i - start]));
            assert(!(forall|j: int| 0 <= j < d.len() ==> is_digit(#[trigger] d[j])));
            assert(parse_decimal(s@) is None);
            return None;
        }
        let ghost prefix = s@.subrange(start as int, i + 1);
        assert(prefix.drop_last() =~= s@.subrange(start as int, i as int));
        acc = acc * 10 + (b - 48) as u64;
        if acc > 4294967295 {
            proof {
                if forall|j: int| 0 <= j < d.len() ==> is_digit(#[trigger] d[j]) {
                    assert(d.take(i + 1 - start) =~= prefix);
                    lemma_digits_prefix(d, i + 1 - start);
                }
                assert(parse_decimal(s@) is None);
            }
            return None;
        }
        i = i + 1;
    }
    assert(s@.subrange(start as int, i as int) =~= d);
    assert forall|j: int| 0 <= j < d.len() implies is_digit(#[trigger] d[j]) by {
        assert(d[j] == s@[j + start]);
    }
    Some(acc as u32)
}

/// The marker of the line that reports the screen size: `Physical size:`.
pub open spec fn size_marker() -> Seq<u8> {
    seq![80u8, 104, 121, 115, 105, 99, 97, 108, 32, 115, 105, 122, 101, 58]
}

fn size_marker_bytes() -> (r: Vec<u8>)
    ensures
        r@ == size_marker(),
{
    let r: Vec<u8> = vec![80u8, 104, 121, 115, 105, 99, 97, 108, 32, 115, 105, 122, 101, 58];
    assert(r@ =~= size_marker());
    r
}

/// The first line that holds the marker, if any.
pub open spec fn first_marked(lines: Seq<Seq<u8>>) -> Option<Seq<u8>>
    decreases lines.len(),
{
    if lines.len() == 0 {
        None
    } else if contains(lines[0], size_marker()) {
        Some(lines[0])
    } else {
        first_marked(lines.drop_first())
    }
}

/// The size on a marked line: its third space-separated field must be
/// `<width>x<height>`, with exactly one `x`.
pub open spec fn size_from_line(line: Seq<u8>) -> Option<Dimensions> {
    let fields = split(line, 32);
    if fields.len() < 3 {
        None
    } else {
        let halves = split(fields[2], 120);
        if halves.len() != 2 {
            None
        } else {
            match (parse_decimal(halves[0]), parse_decimal(halves[1])) {
                (Some(w), Some(h)) => Some(Dimensions { width: w, height: h }),
                _ => None,
            }
        }
    }
}

/// What the text of a `wm size` reply reports: the size on the first line
/// that holds the marker, zero by zero when no line does.
pub open spec fn size_report(text: Seq<u8>) -> Result<Dimensions, ControlError> {
    match first_marked(split(text, 10)) {
        None => Ok(Dimensions { width: 0, height: 0 }),
        Some(line) => match size_from_line(line) {
            Some(d) => Ok(d),
            None => Err(ControlError::MalformedSize),
        },
    }
}

/// What the raw output of `wm size` gives: it must be UTF-8 text first.
pub open spec fn size_outcome(output: Seq<u8>) -> Result<Dimensions, ControlError> {
    if !valid_utf8(output) {
        Err(ControlError::OutputNotUtf8)
    } else {
        size_report(output)
    }
}

/// What an input command's output says of it: success exactly when the
/// output is empty; output that is not UTF-8 is an error.
pub open spec fn input_status(output: Seq<u8>) -> Result<bool, ControlError> {
    if output.len() == 0 {
        Ok(true)
    } else if valid_utf8(output) {
        Ok(false)
    } else {
        Err(ControlError::OutputNotUtf8)
    }
}

/// Relies on std::str::from_utf8, which succeeds exactly on well-formed UTF-8.
#[verifier::external_body]
fn is_utf8(bytes: &[u8]) -> (r: bool)
    ensures
        r == valid_utf8(bytes@),
{
    std::str::from_utf8(bytes).is_ok()
}

/// Reads the size from one line of `wm size` output.
pub fn parse_size_line(line: &[u8]) -> (r: Option<Dimensions>)
    ensures
        r == size_from_line(line@),
{
    let fields = split_bytes(line, 32);
    if fields.len() < 3 {
        return None;
    }
    let field = fields[2].as_slice();
    assert(field@ =~= fields.deep_view()[2]);
    let halves = split_bytes(field, 120);
    if halves.len() != 2 {
        return None;
    }
    assert(halves[0]@ =~= halves.deep_view()[0]);
    assert(halves[1]@ =~= halves.deep_view()[1]);
    let w = parse_u32(halves[0].as_slice());
    let h = parse_u32(halves[1].as_slice());
    match (w, h) {
        (Some(width), Some(height)) => Some(Dimensions { width, height }),
        _ => None,
    }
}

/// Reads the screen size from the text of a `wm size` reply.
pub fn parse_dimensions(text: &[u8]) -> (r: Result<Dimensions, ControlError>)
    ensures
        r == size_report(text@),
{
    let lines = split_bytes(text, 10);
    let marker = size_marker_bytes();
    let mut j: usize = 0;
    assert(lines.deep_view().skip(0) =~= lines.deep_view());
    while j < lines.len()
        invariant
            j <= lines@.len(),
            lines.deep_view() == split(text@, 10),
            marker@ == size_marker(),
            first_marked(split(text@, 10)) == first_marked(lines.deep_view().skip(j as int)),
        decreases lines@.len() - j,
    {
        let line = lines[j].as_slice();
        assert(line@ =~= lines.deep_view()[j as int]);
        assert(lines.deep_view().skip(j as int).drop_first() =~= lines.deep_view().skip(j + 1));
        if contains_bytes(line, marker.as_slice()) {
            return match parse_size_line(line) {
                Some(d) => Ok(d),
                None => Err(ControlError::MalformedSize),
            };
        }
        j = j + 1;
    }
    Ok(Dimensions { width: 0, height: 0 })
}

/// Reads the screen size from the raw output of `wm size`.
pub fn dimensions_from_output(output: &[u8]) -> (r: Result<Dimensions, ControlError>)
    ensures
        r == size_outcome(output@),
{
    if !is_utf8(output) {
        return Err(ControlError::OutputNotUtf8);
    }
    parse_dimensions(output)
}

/// Whether an input command succeeded, judged by its raw output.
pub fn output_status(output: &[u8]) -> (r: Result<bool, ControlError>)
    ensures
        r == input_status(output@),
{
    if output.len() == 0 {
        Ok(true)
    } else if is_utf8(output) {
        Ok(false)
    } else {
        Err(ControlError::OutputNotUtf8)
    }
}

/// An input command succeeds exactly when it prints nothing: empty output
/// gives `true`, and any other output gives `false` or an error, never `true`.
pub proof fn success_means_empty_output(output: Seq<u8>)
    ensures
        output.len() == 0 ==> input_status(output) == Ok::<bool, ControlError>(true),
        output.len() > 0 ==> input_status(output) != Ok::<bool, ControlError>(true),
        input_status(output) is Ok ==> input_status(output) == Ok::<bool, ControlError>(
            output.len() == 0,
        ),
{
}

/// The ASCII bytes of `n` written in decimal.
pub open spec fn decimal_bytes(n: nat) -> Seq<u8> {
    decimal(n).map_values(|c: char| c as u8)
}

/// The line `Physical size: <width>x<height>`.
pub open spec fn size_line(width: u32, height: u32) -> Seq<u8> {
    size_marker() + seq![32u8] + decimal_bytes(width as nat) + seq![120u8] + decimal_bytes(
        height as nat,
    )
}

proof fn lemma_split_joined(a: Seq<u8>, b: Seq<u8>, sep: u8)
    ensures
        split(a + seq![sep] + b, sep) == split(a, sep) + split(b, sep),
    decreases b.len(),
{
    let s = a + seq![sep] + b;
    if b.len() == 0 {
        assert(s.drop_last() =~= a);
        assert(split(s, sep) =~= split(a, sep) + split(b, sep));
    } else {
        let b0 = b.drop_last();
        assert(s.drop_last() =~= a + seq![sep] + b0);
        lemma_split_joined(a, b0, sep);
        lemma_split_nonempty(b0, sep);
        lemma_split_nonempty(a, sep);
        assert(split(s, sep) =~= split(a, sep) + split(b, sep));
    }
}

proof fn lemma_split_without_sep(s: Seq<u8>, sep: u8)
    requires
        forall|i: int| 0 <= i < s.len() ==> s[i] != sep,
    ensures
        split(s, sep) == seq![s],
    decreases s.len(),
{
    if s.len() > 0 {
        let t = s.drop_last();
        assert forall|i: int| 0 <= i < t.len() implies t[i] != sep by {
            assert(t[i] == s[i]);
        }
        lemma_split_without_sep(t, sep);
        assert(s.last() != sep);
        assert(t.push(s.last()) =~= s);
        assert(split(s, sep) =~= seq![s]);
    } else {
        assert(s =~= Seq::<u8>::empty());
        assert(split(s, sep) =~= seq![s]);
    }
}

proof fn lemma_decimal_bytes(n: nat)
    ensures
        decimal_bytes(n).len() > 0,
        forall|i: int| 0 <= i < decimal_bytes(n).len() ==> is_digit(#[trigger] decimal_bytes(n)[i]),
        digits_value(decimal_bytes(n)) == n,
    decreases n,
{
    if n < 10 {
        assert(decimal_bytes(n) =~= seq![(n + 48) as u8]);
        assert(decimal_bytes(n).drop_last() =~= Seq::<u8>::empty());
        assert(digits_value(Seq::<u8>::empty()) == 0);
        assert(digits_value(decimal_bytes(n)) == (decimal_bytes(n).last() - 48) as nat);
    } else {
        lemma_decimal_bytes(n / 10);
        let d = (n % 10) as nat;
        assert(decimal_bytes(n) =~= decimal_bytes(n / 10).push((d + 48) as u8));
        assert(decimal_bytes(n).drop_last() =~= decimal_bytes(n / 10));
        vstd::arithmetic::div_mod::lemma_fundamental_div_mod(n as int, 10);
        assert(decimal_bytes(n).last() == (d + 48) as u8);
        assert(digits_value(decimal_bytes(n)) == digits_value(decimal_bytes(n / 10)) * 10 + d);
        assert((n / 10) * 10 == 10 * (n / 10)) by (nonlinear_arith);
    }
}

proof fn lemma_parse_decimal_bytes(n: u32)
    ensures
        parse_decimal(decimal_bytes(n as nat)) == Some(n),
        forall|i: int|
            0 <= i < decimal_bytes(n as nat).len() ==> {
                &&& #[trigger] decimal_bytes(n as nat)[i] != 32
                &&& decimal_bytes(n as nat)[i] != 120
                &&& decimal_bytes(n as nat)[i] != 10
            },
{
    lemma_decimal_bytes(n as nat);
    let d = decimal_bytes(n as nat);
    assert(is_digit(d[0]));
    assert(unsigned_digits(d) == d);
}

/// A marked line `Physical size: <width>x<height>` gives exactly that size,
/// for every width and height.
pub proof fn size_line_is_read(width: u32, height: u32)
    ensures
        size_from_line(size_line(width, height)) == Some(Dimensions { width, height }),
{
    let w = decimal_bytes(width as nat);
    let h = decimal_bytes(height as nat);
    lemma_parse_decimal_bytes(width);
    lemma_parse_decimal_bytes(height);
    let physical: Seq<u8> = seq![80u8, 104, 121, 115, 105, 99, 97, 108];
    let size: Seq<u8> = seq![115u8, 105, 122, 101, 58];
    let third = w + seq![120u8] + h;
    assert(size_line(width, height) =~= physical + seq![32u8] + (size + seq![32u8] + third));
    lemma_split_joined(physical, size + seq![32u8] + third, 32);
    lemma_split_joined(size, third, 32);
    lemma_split_without_sep(physical, 32);
    lemma_split_without_sep(size, 32);
    assert forall|i: int| 0 <= i < third.len() implies third[i] != 32 by {
        if i < w.len() {
            assert(third[i] == w[i]);
        } else if i > w.len() {
            assert(third[i] == h[i - w.len() - 1]);
        }
    }
    lemma_split_without_sep(third, 32);
    let fields = split(size_line(width, height), 32);
    assert(fields =~= seq![physical, size, third]);
    lemma_split_joined(w, h, 120);
    lemma_split_without_sep(w, 120);
    lemma_split_without_sep(h, 120);
    assert(split(third, 120) =~= seq![w, h]);
}

/// Output whose first marked line is `Physical size: <width>x<height>`
/// reports exactly that size, for every width and height.
pub proof fn reported_size_is_read(text: Seq<u8>, width: u32, height: u32)
    requires
        first_marked(split(text, 10)) == Some(size_line(width, height)),
    ensures
        size_report(text) == Ok::<Dimensions, ControlError>(Dimensions { width, height }),
        valid_utf8(text) ==> size_outcome(text) == Ok::<Dimensions, ControlError>(
            Dimensions { width, height },
        ),
{
    size_line_is_read(width, height);
}

} // verus!
