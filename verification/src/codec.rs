//! Encoding a track into its selection label and decoding a label back into
//! the track index.
//!
//! A label begins with `#`, the decimal track index, and one space; the rest
//! is display text.  Decoding reads only that prefix — the maximal run of
//! digits after the leading `#`, terminated by a space — so a `#12 `-shaped
//! substring later in the label (for instance inside a title) can never be
//! mistaken for the index.

use crate::probe::StreamInfo;
use crate::text::chars_to_string;
use crate::text::dec_digits;
use crate::text::digit_run_value;
use crate::text::digits_val;
use crate::text::is_digit;
use crate::text::is_digit_char;
use crate::text::lemma_dec_digits_shape;
use crate::text::lemma_digits_val_of_dec_digits;
use crate::text::opt_str_view;
use crate::text::push_dec_digits;
use crate::text::str_chars;
use vstd::prelude::*;

verus! {

/// A selection label did not start with `#`, at least one digit, and a
/// space, or its index did not fit the machine integer.
#[derive(Debug, Clone, Copy, PartialEq, Eq, Structural)]
pub struct DecodeError {}

/// The label text for a track: `#`, the decimal index, a space, the display
/// language, and ` - ` followed by the title where one is tagged.
pub open spec fn encoded_label(index: nat, language: Seq<char>, title: Option<Seq<char>>) -> Seq<
    char,
> {
    let head = seq!['#'] + dec_digits(index) + seq![' '] + language;
    match title {
        Some(t) => head + seq![' ', '-', ' '] + t,
        None => head,
    }
}

/// End of the run of digits that starts at position `i`.
pub open spec fn digit_run_end(s: Seq<char>, i: int) -> int
    recommends
        0 <= i <= s.len(),
    decreases s.len() - i,
{
    if i < 0 || i >= s.len() || !is_digit(s[i]) {
        i
    } else {
        digit_run_end(s, i + 1)
    }
}

/// The index carried by a label: the value of the maximal digit run after
/// the leading `#`, provided the run is non-empty and a space follows it.
pub open spec fn decoded_index(s: Seq<char>) -> Option<nat> {
    let e = digit_run_end(s, 1);
    if s.len() >= 1 && s[0] == '#' && e > 1 && e < s.len() && s[e] == ' ' {
        Some(digits_val(s.subrange(1, e)))
    } else {
        None
    }
}

proof fn lemma_digit_run_end_bounds(s: Seq<char>, i: int)
    requires
        0 <= i <= s.len(),
    ensures
        i <= digit_run_end(s, i) <= s.len(),
        forall|k: int| i <= k < digit_run_end(s, i) ==> is_digit(s[k]),
        digit_run_end(s, i) < s.len() ==> !is_digit(s[digit_run_end(s, i)]),
    decreases s.len() - i,
{
    if i < s.len() && is_digit(s[i]) {
        lemma_digit_run_end_bounds(s, i + 1);
    }
}

/// A digit run that ends at a non-digit (or at the end of the text) is the
/// maximal run: `digit_run_end` lands exactly on its end.
proof fn lemma_digit_run_end_of(s: Seq<char>, i: int, j: int)
    requires
        0 <= i <= j <= s.len(),
        forall|k: int| i <= k < j ==> is_digit(s[k]),
        j < s.len() ==> !is_digit(s[j]),
    ensures
        digit_run_end(s, i) == j,
    decreases j - i,
{
    if i < j {
        assert(is_digit(s[i]));
        lemma_digit_run_end_of(s, i + 1, j);
    }
}

/// Round trip: decoding any encoded label recovers the encoded index, no
/// matter what the language text and the title hold.
pub proof fn lemma_label_round_trip(index: nat, language: Seq<char>, title: Option<Seq<char>>)
    ensures
        decoded_index(encoded_label(index, language, title)) == Some(index),
{
    let s = encoded_label(index, language, title);
    let d = dec_digits(index);
    lemma_dec_digits_shape(index);
    let e = 1 + d.len() as int;
    assert(forall|k: int| 1 <= k < e ==> is_digit(s[k]));
    assert(s[e] == ' ');
    assert(!is_digit(s[e]));
    lemma_digit_run_end_of(s, 1, e);
    assert(s.subrange(1, e) =~= d);
    lemma_digits_val_of_dec_digits(index);
}

/// The title of a track, viewed as an optional character sequence.
pub open spec fn title_view(d: StreamInfo) -> Option<Seq<char>> {
    opt_str_view(d.tags.title)
}

/// Builds the selection label of a track from its descriptor and the
/// display name of its language.
pub fn encode(d: &StreamInfo, language: &str) -> (r: String)
    requires
        d.index >= 0,
    ensures
        r@ == encoded_label(d.index as nat, language@, title_view(*d)),
{
    let mut out: Vec<char> = Vec::new();
    out.push('#');
    push_dec_digits(d.index as u32, &mut out);
    out.push(' ');
    let lang = str_chars(language);
    let mut k: usize = 0;
    while k < lang.len()
        invariant
            k <= lang@.len(),
            lang@ == language@,
            out@ == seq!['#'] + dec_digits(d.index as nat) + seq![' '] + language@.take(k as int),
        decreases lang@.len() - k,
    {
        out.push(lang[k]);
        proof {
            assert(language@.take(k as int + 1) =~= language@.take(k as int).push(
                language@[k as int],
            ));
            assert(out@ =~= seq!['#'] + dec_digits(d.index as nat) + seq![' '] + language@.take(
                k as int + 1,
            ));
        }
        k = k + 1;
    }
    proof {
        assert(language@.take(k as int) =~= language@);
    }
    match &d.tags.title {
        Some(t) => {
            out.push(' ');
            out.push('-');
            out.push(' ');
            let ghost head = seq!['#'] + dec_digits(d.index as nat) + seq![' '] + language@ + seq![
                ' ',
                '-',
                ' ',
            ];
            proof {
                assert(out@ =~= head);
            }
            let tc = str_chars(t.as_str());
            let mut j: usize = 0;
            while j < tc.len()
                invariant
                    j <= tc@.len(),
                    tc@ == t@,
                    out@ == head + t@.take(j as int),
                decreases tc@.len() - j,
            {
                out.push(tc[j]);
                proof {
                    assert(t@.take(j as int + 1) =~= t@.take(j as int).push(t@[j as int]));
                    assert(out@ =~= head + t@.take(j as int + 1));
                }
                j = j + 1;
            }
            proof {
                assert(t@.take(j as int) =~= t@);
                assert(out@ =~= encoded_label(d.index as nat, language@, title_view(*d)));
            }
        },
        None => {
            proof {
                assert(out@ =~= encoded_label(d.index as nat, language@, title_view(*d)));
            }
        },
    }
    chars_to_string(&out)
}

/// Scans the maximal digit run of `s` that starts at `i` and returns the
/// position just past it.
pub fn digit_run_end_from(s: &Vec<char>, i: usize) -> (r: usize)
    requires
        i <= s@.len(),
    ensures
        r == digit_run_end(s@, i as int),
        i <= r <= s@.len(),
        forall|k: int| i <= k < r ==> is_digit(s@[k]),
        r < s@.len() ==> !is_digit(s@[r as int]),
{
    proof {
        lemma_digit_run_end_bounds(s@, i as int);
    }
    let n = s.len();
    let mut e: usize = i;
    while e < n && is_digit_char(s[e])
        invariant
            i <= e <= n,
            n == s@.len(),
            digit_run_end(s@, i as int) == digit_run_end(s@, e as int),
        decreases n - e,
    {
        e = e + 1;
    }
    proof {
        lemma_digit_run_end_of(s@, e as int, e as int);
    }
    e
}

/// Reads the track index back out of a selection label.
///
/// Succeeds exactly on labels that carry an index — `#`, one or more
/// digits, then a space — whose value fits an `i32`; the index returned is
/// that value.
pub fn decode(label: &str) -> (r: Result<i32, DecodeError>)
    ensures
        r matches Ok(v) ==> decoded_index(label@) == Some(v as nat) && v >= 0,
        r is Ok <==> (decoded_index(label@) matches Some(v) && v <= i32::MAX),
{
    let s = str_chars(label);
    let n = s.len();
    if n < 1 || s[0] != '#' {
        return Err(DecodeError {});
    }
    let e = digit_run_end_from(&s, 1);
    proof {
        lemma_digit_run_end_bounds(label@, 1);
    }
    assert(digit_run_end(label@, 1) == e);
    assert(forall|k: int| 1 <= k < e ==> is_digit(label@[k]));
    if e == 1 || e == n {
        return Err(DecodeError {});
    }
    let space = s[e];
    if space != ' ' {
        return Err(DecodeError {});
    }
    assert(decoded_index(label@) == Some(digits_val(label@.subrange(1, e as int))));
    match digit_run_value(&s, 1, e) {
        Some(v) => Ok(v as i32),
        None => Err(DecodeError {}),
    }
}

} // verus!
