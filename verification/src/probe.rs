//! Track descriptors reported by the probing tool, and the filtering of the
//! tracks offered for selection.

use crate::codec::digit_run_end_from;
use crate::text::chars_to_string;
use crate::codec::digit_run_end;
use crate::text::digit_run_value;
use crate::text::digits_val;
use crate::text::is_digit;
use crate::text::is_digit_char;
use crate::text::opt_str_view;
use crate::text::str_chars;
use vstd::prelude::*;
use vstd::string::StringExecFns;

verus! {

/// The probing tool could not be run, or exited without a report;
/// `detail` says how.
#[derive(Debug, Clone)]
pub struct ProbeInvocationError {
    pub detail: String,
}

/// The probing tool's output was not a well-formed report.
#[derive(Debug, Clone, Copy, PartialEq, Eq, Structural)]
pub struct ProbeParseError {}

/// One track found in a media container: its container-assigned stream
/// index, its category, and its tags.
#[derive(Debug, Clone)]
pub struct StreamInfo {
    pub index: i32,
    pub codec_type: String,
    pub tags: StreamTags,
}

/// The tags of one track: the raw language code as stored in the container
/// (empty when the container has none) and the free-text title, if tagged.
#[derive(Debug, Clone)]
pub struct StreamTags {
    pub language: String,
    pub title: Option<String>,
}

/// A track is offered for selection exactly when its category is
/// `"subtitle"`.
pub open spec fn is_subtitle(s: StreamInfo) -> bool {
    s.codec_type@ == "subtitle"@
}

/// Keeps, in order, exactly the tracks whose category is `"subtitle"`.
pub fn filter_subtitles(streams: Vec<StreamInfo>) -> (r: Vec<StreamInfo>)
    ensures
        r@ == streams@.filter(|s: StreamInfo| is_subtitle(s)),
{
    let subtitle = String::from_str("subtitle");
    let ghost all = streams@;
    let mut rest = streams;
    let total: usize = rest.len();
    let mut r: Vec<StreamInfo> = Vec::new();
    let mut i: usize = 0;
    proof {
        assert(all.take(0int).filter(|s: StreamInfo| is_subtitle(s)) =~= Seq::<
            StreamInfo,
        >::empty()) by {
            reveal(Seq::filter);
        }
    }
    while rest.len() > 0
        invariant
            all.len() == total,
            i <= all.len(),
            subtitle@ == "subtitle"@,
            rest@ =~= all.skip(i as int),
            r@ == all.take(i as int).filter(|s: StreamInfo| is_subtitle(s)),
        decreases rest@.len(),
    {
        let s = rest.remove(0);
        assert(s == all[i as int]);
        let keep = s.codec_type == subtitle;
        if keep {
            r.push(s);
        }
        proof {
            let pred = |t: StreamInfo| is_subtitle(t);
            let taken = all.take(i as int + 1);
            assert(taken.drop_last() =~= all.take(i as int));
            assert(taken.last() == all[i as int]);
            assert(taken.filter(pred) == taken.drop_last().filter(pred) + (if pred(taken.last()) {
                seq![taken.last()]
            } else {
                Seq::<StreamInfo>::empty()
            })) by {
                reveal(Seq::filter);
            }
            assert(r@ =~= taken.filter(pred));
            assert(rest@ =~= all.skip(i as int + 1));
        }
        i = i + 1;
    }
    proof {
        assert(all.take(i as int) =~= all);
    }
    r
}

/// Everything that the filtering offers is a subtitle track.
pub proof fn lemma_only_subtitles_offered(streams: Seq<StreamInfo>, k: int)
    requires
        0 <= k < streams.filter(|s: StreamInfo| is_subtitle(s)).len(),
    ensures
        is_subtitle(streams.filter(|s: StreamInfo| is_subtitle(s))[k]),
{
    streams.lemma_filter_pred(|s: StreamInfo| is_subtitle(s), k);
}

/// Every subtitle track of a probe result is offered by the filtering.
pub proof fn lemma_every_subtitle_offered(streams: Seq<StreamInfo>, i: int)
    requires
        0 <= i < streams.len(),
        is_subtitle(streams[i]),
    ensures
        streams.filter(|s: StreamInfo| is_subtitle(s)).contains(streams[i]),
{
    streams.lemma_filter_contains(|s: StreamInfo| is_subtitle(s), i);
}

/// Whitespace accepted between the report's tokens.
pub open spec fn is_json_ws(c: char) -> bool {
    c == ' ' || c == '\n' || c == '\r' || c == '\t'
}

/// Mathematical value of one track entry of the report.
pub struct StreamView {
    pub index: int,
    pub codec_type: Seq<char>,
    pub language: Seq<char>,
    pub title: Option<Seq<char>>,
}

/// The value a track descriptor carries.
pub open spec fn stream_view(s: StreamInfo) -> StreamView {
    StreamView {
        index: s.index as int,
        codec_type: s.codec_type@,
        language: s.tags.language@,
        title: opt_str_view(s.tags.title),
    }
}

/// The values of a sequence of track descriptors.
pub open spec fn stream_views(s: Seq<StreamInfo>) -> Seq<StreamView> {
    s.map_values(|t: StreamInfo| stream_view(t))
}

/// First position at or after `i` that holds no whitespace.
pub open spec fn spec_skip_ws(s: Seq<char>, i: int) -> int
    decreases s.len() - i,
{
    if 0 <= i < s.len() && is_json_ws(s[i]) {
        spec_skip_ws(s, i + 1)
    } else {
        i
    }
}

/// Hexadecimal value of one character, if it is a hex digit.
pub open spec fn spec_hex_val(c: char) -> Option<int> {
    let u = c as u32;
    if 48 <= u <= 57 {
        Some((u - 48) as int)
    } else if 97 <= u <= 102 {
        Some((u - 87) as int)
    } else if 65 <= u <= 70 {
        Some((u - 55) as int)
    } else {
        None
    }
}

/// Value of the four hex digits at `i`, when they are there.
pub open spec fn spec_hex4(s: Seq<char>, i: int) -> Option<int> {
    if 0 <= i && i + 4 <= s.len() && spec_hex_val(s[i]) is Some && spec_hex_val(s[i + 1]) is Some
        && spec_hex_val(s[i + 2]) is Some && spec_hex_val(s[i + 3]) is Some {
        Some(
            spec_hex_val(s[i])->Some_0 * 4096 + spec_hex_val(s[i + 1])->Some_0 * 256 + spec_hex_val(
                s[i + 2],
            )->Some_0 * 16 + spec_hex_val(s[i + 3])->Some_0,
        )
    } else {
        None
    }
}

/// The character with code point `u`.
pub open spec fn char_of_code(u: int) -> char {
    u as char
}

proof fn lemma_char_of_code(c: char, u: u32)
    requires
        c as u32 == u,
    ensures
        char_of_code(u as int) == c,
{
}

/// The rest of a quoted string from position `j` on, with `acc` already
/// read: `None` on an unterminated string, a bad escape, a lone
/// surrogate, or a bare control character; else the contents and the
/// position just past the closing quote.
pub open spec fn spec_string_body(s: Seq<char>, j: int, acc: Seq<char>) -> Option<(Seq<char>, int)>
    decreases s.len() - j,
{
    if j < 0 || j >= s.len() {
        None
    } else if s[j] == '"' {
        Some((acc, j + 1))
    } else if s[j] == '\\' {
        if j + 2 > s.len() {
            None
        } else {
            let e = s[j + 1];
            if e == 'u' {
                match spec_hex4(s, j + 2) {
                    Some(v) => if 0xD800 <= v <= 0xDBFF {
                        if j + 8 > s.len() || s[j + 6] != '\\' || s[j + 7] != 'u' {
                            None
                        } else {
                            match spec_hex4(s, j + 8) {
                                Some(w) => if 0xDC00 <= w <= 0xDFFF {
                                    spec_string_body(
                                        s,
                                        j + 12,
                                        acc.push(
                                            char_of_code(
                                                0x10000 + (v - 0xD800) * 0x400 + (w - 0xDC00),
                                            ),
                                        ),
                                    )
                                } else {
                                    None
                                },
                                None => None,
                            }
                        }
                    } else if 0xDC00 <= v <= 0xDFFF {
                        None
                    } else {
                        spec_string_body(s, j + 6, acc.push(char_of_code(v)))
                    },
                    None => None,
                }
            } else if e == '"' {
                spec_string_body(s, j + 2, acc.push('"'))
            } else if e == '\\' {
                spec_string_body(s, j + 2, acc.push('\\'))
            } else if e == '/' {
                spec_string_body(s, j + 2, acc.push('/'))
            } else if e == 'b' {
                spec_string_body(s, j + 2, acc.push('\u{0008}'))
            } else if e == 'f' {
                spec_string_body(s, j + 2, acc.push('\u{000C}'))
            } else if e == 'n' {
                spec_string_body(s, j + 2, acc.push('\n'))
            } else if e == 'r' {
                spec_string_body(s, j + 2, acc.push('\r'))
            } else if e == 't' {
                spec_string_body(s, j + 2, acc.push('\t'))
            } else {
                None
            }
        }
    } else if (s[j] as u32) < 0x20 {
        None
    } else {
        spec_string_body(s, j + 1, acc.push(s[j]))
    }
}

/// A quoted string at `i`: its unescaped contents and the position just
/// past its closing quote.
pub open spec fn spec_parse_string(s: Seq<char>, i: int) -> Option<(Seq<char>, int)>
    recommends
        0 <= i < s.len(),
        s[i] == '"',
{
    spec_string_body(s, i + 1, Seq::empty())
}

/// The exponent part of a number token, if one stands at `j`; the
/// position just past the token.
pub open spec fn spec_number_exp(s: Seq<char>, j: int) -> Option<int> {
    if j < s.len() && (s[j] == 'e' || s[j] == 'E') {
        let g = if j + 1 < s.len() && (s[j + 1] == '+' || s[j + 1] == '-') {
            j + 2
        } else {
            j + 1
        };
        if digit_run_end(s, g) == g {
            None
        } else {
            Some(digit_run_end(s, g))
        }
    } else {
        Some(j)
    }
}

/// A number token at `i`: the position just past it, or `None` where the
/// text is no well-formed number.
pub open spec fn spec_scan_number(s: Seq<char>, i: int) -> Option<int>
    recommends
        0 <= i < s.len(),
{
    let start = if s[i] == '-' {
        i + 1
    } else {
        i
    };
    if start >= s.len() || !is_digit(s[start]) {
        None
    } else {
        let d = if s[start] == '0' {
            start + 1
        } else {
            digit_run_end(s, start)
        };
        if s[start] == '0' && d < s.len() && is_digit(s[d]) {
            None
        } else if d < s.len() && s[d] == '.' {
            let f = digit_run_end(s, d + 1);
            if f == d + 1 {
                None
            } else {
                spec_number_exp(s, f)
            }
        } else {
            spec_number_exp(s, d)
        }
    }
}

/// An integer token at `i`, fit for a track index: its signed value and
/// the position just past it; `None` on a fraction, an exponent, a
/// leading zero, a missing digit, or a magnitude above `i32::MAX`.
pub open spec fn spec_parse_int(s: Seq<char>, i: int) -> Option<(int, int)>
    recommends
        0 <= i < s.len(),
{
    let neg = s[i] == '-';
    let start = if neg {
        i + 1
    } else {
        i
    };
    if start >= s.len() || !is_digit(s[start]) {
        None
    } else {
        let e = digit_run_end(s, start);
        if s[start] == '0' && e > start + 1 {
            None
        } else if e < s.len() && (s[e] == '.' || s[e] == 'e' || s[e] == 'E') {
            None
        } else if digits_val(s.subrange(start, e)) > i32::MAX {
            None
        } else if neg {
            Some((-(digits_val(s.subrange(start, e)) as int), e))
        } else {
            Some((digits_val(s.subrange(start, e)) as int, e))
        }
    }
}

/// One well-formed value of any shape at `i`: the position just past it.
pub open spec fn spec_skip_value(s: Seq<char>, i: int) -> Option<int>
    decreases s.len() - i, 0int,
{
    if i < 0 || i >= s.len() {
        None
    } else if s[i] == '"' {
        match spec_parse_string(s, i) {
            Some(p) => Some(p.1),
            None => None,
        }
    } else if s[i] == '{' {
        let j = spec_skip_ws(s, i + 1);
        if j < s.len() && s[j] == '}' {
            Some(j + 1)
        } else if i < j <= s.len() {
            spec_member_list(s, j)
        } else {
            None
        }
    } else if s[i] == '[' {
        let j = spec_skip_ws(s, i + 1);
        if j < s.len() && s[j] == ']' {
            Some(j + 1)
        } else if i < j <= s.len() {
            spec_element_list(s, j)
        } else {
            None
        }
    } else if s[i] == 't' {
        if i + 4 <= s.len() && s[i + 1] == 'r' && s[i + 2] == 'u' && s[i + 3] == 'e' {
            Some(i + 4)
        } else {
            None
        }
    } else if s[i] == 'f' {
        if i + 5 <= s.len() && s[i + 1] == 'a' && s[i + 2] == 'l' && s[i + 3] == 's' && s[i + 4]
            == 'e' {
            Some(i + 5)
        } else {
            None
        }
    } else if s[i] == 'n' {
        if i + 4 <= s.len() && s[i + 1] == 'u' && s[i + 2] == 'l' && s[i + 3] == 'l' {
            Some(i + 4)
        } else {
            None
        }
    } else if s[i] == '-' || is_digit(s[i]) {
        spec_scan_number(s, i)
    } else {
        None
    }
}

/// The members of an object from the first key at `j` on, each stepped
/// over: the position just past the closing brace.
pub open spec fn spec_member_list(s: Seq<char>, j: int) -> Option<int>
    decreases s.len() - j, 1int,
{
    if j < 0 || j >= s.len() || s[j] != '"' {
        None
    } else {
        match spec_parse_string(s, j) {
            Some(key) => {
                let j3 = spec_skip_ws(s, key.1);
                if j3 >= s.len() || s[j3] != ':' {
                    None
                } else {
                    let j4 = spec_skip_ws(s, j3 + 1);
                    if !(j < j4 <= s.len()) {
                        None
                    } else {
                        match spec_skip_value(s, j4) {
                            Some(j5) => {
                                let j6 = spec_skip_ws(s, j5);
                                if j6 >= s.len() {
                                    None
                                } else if s[j6] == ',' {
                                    let j7 = spec_skip_ws(s, j6 + 1);
                                    if j < j7 <= s.len() {
                                        spec_member_list(s, j7)
                                    } else {
                                        None
                                    }
                                } else if s[j6] == '}' {
                                    Some(j6 + 1)
                                } else {
                                    None
                                }
                            },
                            None => None,
                        }
                    }
                }
            },
            None => None,
        }
    }
}

/// The elements of an array from the one at `j` on, each stepped over:
/// the position just past the closing bracket.
pub open spec fn spec_element_list(s: Seq<char>, j: int) -> Option<int>
    decreases s.len() - j, 1int,
{
    if !(0 <= j <= s.len()) {
        None
    } else {
        match spec_skip_value(s, j) {
            Some(j2) => {
                let j3 = spec_skip_ws(s, j2);
                if j3 >= s.len() {
                    None
                } else if s[j3] == ',' {
                    let j4 = spec_skip_ws(s, j3 + 1);
                    if j < j4 <= s.len() {
                        spec_element_list(s, j4)
                    } else {
                        None
                    }
                } else if s[j3] == ']' {
                    Some(j3 + 1)
                } else {
                    None
                }
            },
            None => None,
        }
    }
}

/// The members of a `tags` object from the first key at `j` on, with the
/// fields read so far: the language (empty where the member is missing),
/// the title (none where missing), and the position just past the brace.
pub open spec fn spec_tags_members(
    s: Seq<char>,
    j: int,
    language: Option<Seq<char>>,
    title: Option<Seq<char>>,
) -> Option<((Seq<char>, Option<Seq<char>>), int)>
    decreases s.len() - j,
{
    if j < 0 || j >= s.len() || s[j] != '"' {
        None
    } else {
        match spec_parse_string(s, j) {
            Some(key) => {
                let j3 = spec_skip_ws(s, key.1);
                if j3 >= s.len() || s[j3] != ':' {
                    None
                } else {
                    let j4 = spec_skip_ws(s, j3 + 1);
                    let step: Option<(Option<Seq<char>>, Option<Seq<char>>, int)> = if key.0
                        == "language"@ {
                        if language is Some || !(0 <= j4 < s.len()) || s[j4] != '"' {
                            None
                        } else {
                            match spec_parse_string(s, j4) {
                                Some(v) => Some((Some(v.0), title, v.1)),
                                None => None,
                            }
                        }
                    } else if key.0 == "title"@ {
                        if title is Some || !(0 <= j4 < s.len()) || s[j4] != '"' {
                            None
                        } else {
                            match spec_parse_string(s, j4) {
                                Some(v) => Some((language, Some(v.0), v.1)),
                                None => None,
                            }
                        }
                    } else {
                        match spec_skip_value(s, j4) {
                            Some(e) => Some((language, title, e)),
                            None => None,
                        }
                    };
                    match step {
                        Some(st) => {
                            let j6 = spec_skip_ws(s, st.2);
                            if j6 >= s.len() {
                                None
                            } else if s[j6] == ',' {
                                let j7 = spec_skip_ws(s, j6 + 1);
                                if j < j7 <= s.len() {
                                    spec_tags_members(s, j7, st.0, st.1)
                                } else {
                                    None
                                }
                            } else if s[j6] == '}' {
                                Some(
                                    (
                                        (
                                            match st.0 {
                                                Some(l) => l,
                                                None => Seq::empty(),
                                            },
                                            st.1,
                                        ),
                                        j6 + 1,
                                    ),
                                )
                            } else {
                                None
                            }
                        },
                        None => None,
                    }
                }
            },
            None => None,
        }
    }
}

/// A `tags` object at `i`: its language and title, and the position just
/// past it.
pub open spec fn spec_parse_tags(s: Seq<char>, i: int) -> Option<
    ((Seq<char>, Option<Seq<char>>), int),
>
    recommends
        0 <= i < s.len(),
        s[i] == '{',
{
    let j = spec_skip_ws(s, i + 1);
    if j < s.len() && s[j] == '}' {
        Some(((Seq::empty(), None), j + 1))
    } else {
        spec_tags_members(s, j, None, None)
    }
}

/// The members of one track object from the first key at `j` on, with
/// the fields read so far: the track's value and the position just past
/// the brace, or `None` where `index` or `codec_type` is missing or a
/// known member repeats.
pub open spec fn spec_stream_members(
    s: Seq<char>,
    j: int,
    index: Option<int>,
    codec: Option<Seq<char>>,
    tags: Option<(Seq<char>, Option<Seq<char>>)>,
) -> Option<(StreamView, int)>
    decreases s.len() - j,
{
    if j < 0 || j >= s.len() || s[j] != '"' {
        None
    } else {
        match spec_parse_string(s, j) {
            Some(key) => {
                let j3 = spec_skip_ws(s, key.1);
                if j3 >= s.len() || s[j3] != ':' {
                    None
                } else {
                    let j4 = spec_skip_ws(s, j3 + 1);
                    let step: Option<
                        (Option<int>, Option<Seq<char>>, Option<(Seq<char>, Option<Seq<char>>)>, int),
                    > = if key.0 == "index"@ {
                        if index is Some || !(0 <= j4 < s.len()) {
                            None
                        } else {
                            match spec_parse_int(s, j4) {
                                Some(p) => Some((Some(p.0), codec, tags, p.1)),
                                None => None,
                            }
                        }
                    } else if key.0 == "codec_type"@ {
                        if codec is Some || !(0 <= j4 < s.len()) || s[j4] != '"' {
                            None
                        } else {
                            match spec_parse_string(s, j4) {
                                Some(v) => Some((index, Some(v.0), tags, v.1)),
                                None => None,
                            }
                        }
                    } else if key.0 == "tags"@ {
                        if tags is Some || !(0 <= j4 < s.len()) || s[j4] != '{' {
                            None
                        } else {
                            match spec_parse_tags(s, j4) {
                                Some(p) => Some((index, codec, Some(p.0), p.1)),
                                None => None,
                            }
                        }
                    } else {
                        match spec_skip_value(s, j4) {
                            Some(e) => Some((index, codec, tags, e)),
                            None => None,
                        }
                    };
                    match step {
                        Some(st) => {
                            let j6 = spec_skip_ws(s, st.3);
                            if j6 >= s.len() {
                                None
                            } else if s[j6] == ',' {
                                let j7 = spec_skip_ws(s, j6 + 1);
                                if j < j7 <= s.len() {
                                    spec_stream_members(s, j7, st.0, st.1, st.2)
                                } else {
                                    None
                                }
                            } else if s[j6] == '}' {
                                match (st.0, st.1) {
                                    (Some(idx), Some(c)) => {
                                        let t = match st.2 {
                                            Some(t) => t,
                                            None => (Seq::empty(), None),
                                        };
                                        Some(
                                            (
                                                StreamView {
                                                    index: idx,
                                                    codec_type: c,
                                                    language: t.0,
                                                    title: t.1,
                                                },
                                                j6 + 1,
                                            ),
                                        )
                                    },
                                    _ => None,
                                }
                            } else {
                                None
                            }
                        },
                        None => None,
                    }
                }
            },
            None => None,
        }
    }
}

/// One track object at `i`: its value and the position just past it; an
/// empty object is no track.
pub open spec fn spec_parse_stream(s: Seq<char>, i: int) -> Option<(StreamView, int)>
    recommends
        0 <= i < s.len(),
        s[i] == '{',
{
    let j = spec_skip_ws(s, i + 1);
    if j < s.len() && s[j] == '}' {
        None
    } else {
        spec_stream_members(s, j, None, None, None)
    }
}

/// The track objects of the `streams` array from the one at `k` on,
/// after those in `acc`: all of them in order, and the position just
/// past the closing bracket.
pub open spec fn spec_streams_elements(s: Seq<char>, k: int, acc: Seq<StreamView>) -> Option<
    (Seq<StreamView>, int),
>
    decreases s.len() - k,
{
    if k < 0 || k >= s.len() || s[k] != '{' {
        None
    } else {
        match spec_parse_stream(s, k) {
            Some(p) => {
                let k3 = spec_skip_ws(s, p.1);
                if k3 >= s.len() {
                    None
                } else if s[k3] == ',' {
                    let k4 = spec_skip_ws(s, k3 + 1);
                    if k < k4 <= s.len() {
                        spec_streams_elements(s, k4, acc.push(p.0))
                    } else {
                        None
                    }
                } else if s[k3] == ']' {
                    Some((acc.push(p.0), k3 + 1))
                } else {
                    None
                }
            },
            None => None,
        }
    }
}

/// The `streams` array at `i`: its tracks in order and the position just
/// past it.
pub open spec fn spec_parse_streams_array(s: Seq<char>, i: int) -> Option<(Seq<StreamView>, int)>
    recommends
        0 <= i < s.len(),
        s[i] == '[',
{
    let k = spec_skip_ws(s, i + 1);
    if k < s.len() && s[k] == ']' {
        Some((Seq::empty(), k + 1))
    } else {
        spec_streams_elements(s, k, Seq::empty())
    }
}

/// The members of the report's top-level object from the first key at
/// `j` on, with the `streams` member read so far: the report's tracks,
/// or `None` where the text is malformed, `streams` is missing, not an
/// array, or repeated, or text follows the closing brace.
pub open spec fn spec_report_members(s: Seq<char>, j: int, streams: Option<Seq<StreamView>>) -> Option<
    Seq<StreamView>,
>
    decreases s.len() - j,
{
    if j < 0 || j >= s.len() || s[j] != '"' {
        None
    } else {
        match spec_parse_string(s, j) {
            Some(key) => {
                let j3 = spec_skip_ws(s, key.1);
                if j3 >= s.len() || s[j3] != ':' {
                    None
                } else {
                    let j4 = spec_skip_ws(s, j3 + 1);
                    let step: Option<(Option<Seq<StreamView>>, int)> = if key.0 == "streams"@ {
                        if streams is Some || !(0 <= j4 < s.len()) || s[j4] != '[' {
                            None
                        } else {
                            match spec_parse_streams_array(s, j4) {
                                Some(p) => Some((Some(p.0), p.1)),
                                None => None,
                            }
                        }
                    } else {
                        match spec_skip_value(s, j4) {
                            Some(e) => Some((streams, e)),
                            None => None,
                        }
                    };
                    match step {
                        Some(st) => {
                            let j6 = spec_skip_ws(s, st.1);
                            if j6 >= s.len() {
                                None
                            } else if s[j6] == ',' {
                                let j7 = spec_skip_ws(s, j6 + 1);
                                if j < j7 <= s.len() {
                                    spec_report_members(s, j7, st.0)
                                } else {
                                    None
                                }
                            } else if s[j6] == '}' {
                                if spec_skip_ws(s, j6 + 1) < s.len() {
                                    None
                                } else {
                                    st.0
                                }
                            } else {
                                None
                            }
                        },
                        None => None,
                    }
                }
            },
            None => None,
        }
    }
}

/// The tracks of a probing report: `Some` exactly on one well-formed
/// JSON object, surrounded by nothing but whitespace, whose `streams`
/// member is an array of track objects, each with an `index` that fits a
/// track index and a `codec_type`; absent `tags` members leave the empty
/// language code and no title.
pub open spec fn parsed_report(text: Seq<char>) -> Option<Seq<StreamView>> {
    let j0 = spec_skip_ws(text, 0);
    if j0 >= text.len() || text[j0] != '{' {
        None
    } else {
        let j = spec_skip_ws(text, j0 + 1);
        if j < text.len() && text[j] == '}' {
            None
        } else {
            spec_report_members(text, j, None)
        }
    }
}

/// A report that parsing accepts.
pub open spec fn well_formed_report(text: Seq<char>) -> bool {
    parsed_report(text) is Some
}

fn is_json_ws_char(c: char) -> (r: bool)
    ensures
        r == is_json_ws(c),
{
    c == ' ' || c == '\n' || c == '\r' || c == '\t'
}

/// First position at or after `i` that holds no whitespace.
fn skip_ws(s: &Vec<char>, i: usize) -> (r: usize)
    requires
        i <= s@.len(),
    ensures
        i <= r <= s@.len(),
        r < s@.len() ==> !is_json_ws(s@[r as int]),
        r == spec_skip_ws(s@, i as int),
{
    let n = s.len();
    let mut j: usize = i;
    while j < n && is_json_ws_char(s[j])
        invariant
            i <= j <= n,
            n == s@.len(),
            spec_skip_ws(s@, i as int) == spec_skip_ws(s@, j as int),
        decreases n - j,
    {
        j = j + 1;
    }
    j
}

/// True when `v` holds exactly the characters of `lit`.
fn chars_eq(v: &Vec<char>, lit: &str) -> (r: bool)
    ensures
        r == (v@ == lit@),
{
    let lc = str_chars(lit);
    let n = v.len();
    if n != lc.len() {
        return false;
    }
    let mut k: usize = 0;
    while k < n
        invariant
            k <= n,
            n == v@.len(),
            n == lc@.len(),
            lc@ == lit@,
            forall|m: int| 0 <= m < k ==> v@[m] == lit@[m],
        decreases n - k,
    {
        if v[k] != lc[k] {
            return false;
        }
        k = k + 1;
    }
    proof {
        assert(v@ =~= lit@);
    }
    true
}

/// Hexadecimal value of one character, if it is a hex digit.
fn hex_val(c: char) -> (r: Option<u32>)
    ensures
        r matches Some(v) ==> v < 16,
        (match r {
            Some(v) => Some(v as int),
            None => None::<int>,
        }) == spec_hex_val(c),
{
    let u = c as u32;
    if 48 <= u && u <= 57 {
        Some(u - 48)
    } else if 97 <= u && u <= 102 {
        Some(u - 87)
    } else if 65 <= u && u <= 70 {
        Some(u - 55)
    } else {
        None
    }
}

/// Relies on `char::from_u32`: `Some` exactly for the code points that
/// are no surrogates and lie at or below the highest code point, holding
/// the character with that code.
#[verifier::external_body]
fn char_from_code(u: u32) -> (r: Option<char>)
    ensures
        r matches Some(c) ==> c as u32 == u,
        r is Some <==> (u < 0xD800 || (0xDFFF < u && u <= 0x10FFFF)),
{
    char::from_u32(u)
}

/// Value of the four hex digits at `i`, when they are there.
fn scan_hex4(s: &Vec<char>, i: usize) -> (r: Option<(u32, usize)>)
    requires
        i <= s@.len(),
    ensures
        r matches Some(p) ==> p.0 < 0x10000 && p.1 == i + 4 && i + 4 <= s@.len(),
        (match r {
            Some(p) => Some(p.0 as int),
            None => None::<int>,
        }) == spec_hex4(s@, i as int),
{
    let n = s.len();
    if n - i < 4 {
        return None;
    }
    let a = match hex_val(s[i]) {
        Some(d) => d,
        None => {
            return None;
        },
    };
    let b = match hex_val(s[i + 1]) {
        Some(d) => d,
        None => {
            return None;
        },
    };
    let c = match hex_val(s[i + 2]) {
        Some(d) => d,
        None => {
            return None;
        },
    };
    let d = match hex_val(s[i + 3]) {
        Some(d) => d,
        None => {
            return None;
        },
    };
    Some((a * 4096 + b * 256 + c * 16 + d, i + 4))
}

/// A quoted string of the report, unescaped; `Ok` carries the contents
/// and the position just past the closing quote.
fn parse_string(s: &Vec<char>, i: usize) -> (r: Result<(Vec<char>, usize), ProbeParseError>)
    requires
        i < s@.len(),
        s@[i as int] == '"',
    ensures
        r matches Ok(p) ==> i + 2 <= p.1 <= s@.len(),
        (match r {
            Ok(p) => Some((p.0@, p.1 as int)),
            Err(_) => None::<(Seq<char>, int)>,
        }) == spec_parse_string(s@, i as int),
{
    let n = s.len();
    let mut out: Vec<char> = Vec::new();
    let mut j: usize = i + 1;
    loop
        invariant
            i < j <= n,
            n == s@.len(),
            spec_parse_string(s@, i as int) == spec_string_body(s@, j as int, out@),
        decreases n - j,
    {
        let ghost j0 = j as int;
        let ghost out0 = out@;
        if j >= n {
            return Err(ProbeParseError {});
        }
        let c = s[j];
        if c == '"' {
            return Ok((out, j + 1));
        }
        if c == '\\' {
            if n - j < 2 {
                return Err(ProbeParseError {});
            }
            let e = s[j + 1];
            if e == 'u' {
                let (v, j2) = match scan_hex4(s, j + 2) {
                    Some(p) => p,
                    None => {
                        return Err(ProbeParseError {});
                    },
                };
                if 0xD800 <= v && v <= 0xDBFF {
                    if n - j2 < 2 {
                        return Err(ProbeParseError {});
                    }
                    if s[j2] != '\\' || s[j2 + 1] != 'u' {
                        return Err(ProbeParseError {});
                    }
                    let (w, j3) = match scan_hex4(s, j2 + 2) {
                        Some(p) => p,
                        None => {
                            return Err(ProbeParseError {});
                        },
                    };
                    if !(0xDC00 <= w && w <= 0xDFFF) {
                        return Err(ProbeParseError {});
                    }
                    let code: u32 = 0x10000 + (v - 0xD800) * 0x400 + (w - 0xDC00);
                    let ch = match char_from_code(code) {
                        Some(ch) => ch,
                        None => {
                            proof {
                                assert(false);
                            }
                            return Err(ProbeParseError {});
                        },
                    };
                    out.push(ch);
                    j = j3;
                    proof {
                        lemma_char_of_code(ch, code);
                        assert(char_of_code(code as int) == ch);
                        assert(out@ =~= out0.push(ch));
                        assert(spec_string_body(s@, j0, out0) == spec_string_body(
                            s@,
                            j as int,
                            out@,
                        ));
                    }
                } else if 0xDC00 <= v && v <= 0xDFFF {
                    return Err(ProbeParseError {});
                } else {
                    let ch = match char_from_code(v) {
                        Some(ch) => ch,
                        None => {
                            proof {
                                assert(false);
                            }
                            return Err(ProbeParseError {});
                        },
                    };
                    out.push(ch);
                    j = j2;
                    proof {
                        lemma_char_of_code(ch, v);
                        assert(char_of_code(v as int) == ch);
                        assert(out@ =~= out0.push(ch));
                        assert(spec_string_body(s@, j0, out0) == spec_string_body(
                            s@,
                            j as int,
                            out@,
                        ));
                    }
                }
            } else {
                let ch = if e == '"' {
                    '"'
                } else if e == '\\' {
                    '\\'
                } else if e == '/' {
                    '/'
                } else if e == 'b' {
                    '\u{0008}'
                } else if e == 'f' {
                    '\u{000C}'
                } else if e == 'n' {
                    '\n'
                } else if e == 'r' {
                    '\r'
                } else if e == 't' {
                    '\t'
                } else {
                    return Err(ProbeParseError {});
                };
                out.push(ch);
                j = j + 2;
                proof {
                    assert(out@ =~= out0.push(ch));
                    assert(spec_string_body(s@, j0, out0) == spec_string_body(s@, j as int, out@));
                }
            }
        } else if (c as u32) < 0x20 {
            return Err(ProbeParseError {});
        } else {
            out.push(c);
            j = j + 1;
            proof {
                assert(out@ =~= out0.push(c));
                assert(spec_string_body(s@, j0, out0) == spec_string_body(s@, j as int, out@));
            }
        }
    }
}

/// One number token of the report; `Ok` is the position just past it.
fn scan_number(s: &Vec<char>, i: usize) -> (r: Result<usize, ProbeParseError>)
    requires
        i < s@.len(),
    ensures
        r matches Ok(e) ==> i < e <= s@.len(),
        (match r {
            Ok(e) => Some(e as int),
            Err(_) => None::<int>,
        }) == spec_scan_number(s@, i as int),
{
    let n = s.len();
    let mut j: usize = i;
    if s[j] == '-' {
        j = j + 1;
    }
    if j >= n || !is_digit_char(s[j]) {
        return Err(ProbeParseError {});
    }
    if s[j] == '0' {
        j = j + 1;
        if j < n && is_digit_char(s[j]) {
            return Err(ProbeParseError {});
        }
    } else {
        j = digit_run_end_from(s, j);
    }
    if j < n && s[j] == '.' {
        let d = digit_run_end_from(s, j + 1);
        if d == j + 1 {
            return Err(ProbeParseError {});
        }
        j = d;
    }
    if j < n && (s[j] == 'e' || s[j] == 'E') {
        let mut k = j + 1;
        if k < n && (s[k] == '+' || s[k] == '-') {
            k = k + 1;
        }
        let d = digit_run_end_from(s, k);
        if d == k {
            return Err(ProbeParseError {});
        }
        j = d;
    }
    Ok(j)
}

/// One integer of the report, fit for a track index: no fraction, no
/// exponent, no leading zero, magnitude at most `i32::MAX`.  `Ok` carries
/// the signed value of the digit run and the position just past it.
fn parse_int_value(s: &Vec<char>, i: usize) -> (r: Result<(i32, usize), ProbeParseError>)
    requires
        i < s@.len(),
    ensures
        r matches Ok(p) ==> i < p.1 <= s@.len(),
        (match r {
            Ok(p) => Some((p.0 as int, p.1 as int)),
            Err(_) => None::<(int, int)>,
        }) == spec_parse_int(s@, i as int),
{
    let n = s.len();
    let neg = s[i] == '-';
    let start = if neg {
        i + 1
    } else {
        i
    };
    if start >= n || !is_digit_char(s[start]) {
        return Err(ProbeParseError {});
    }
    let e = digit_run_end_from(s, start);
    if s[start] == '0' && e > start + 1 {
        return Err(ProbeParseError {});
    }
    if e < n && (s[e] == '.' || s[e] == 'e' || s[e] == 'E') {
        return Err(ProbeParseError {});
    }
    let v = match digit_run_value(s, start, e) {
        Some(v) => v,
        None => {
            return Err(ProbeParseError {});
        },
    };
    if neg {
        Ok((0 - (v as i32), e))
    } else {
        Ok((v as i32, e))
    }
}

/// Steps over one well-formed value of the report, of any shape; `Ok` is
/// the position just past it.
fn skip_value(s: &Vec<char>, i: usize) -> (r: Result<usize, ProbeParseError>)
    requires
        i <= s@.len(),
    ensures
        r matches Ok(e) ==> i < e <= s@.len(),
        (match r {
            Ok(e) => Some(e as int),
            Err(_) => None::<int>,
        }) == spec_skip_value(s@, i as int),
    decreases s@.len() - i,
{
    let n = s.len();
    if i >= n {
        return Err(ProbeParseError {});
    }
    let c = s[i];
    if c == '"' {
        match parse_string(s, i) {
            Ok(p) => Ok(p.1),
            Err(e) => Err(e),
        }
    } else if c == '{' {
        let mut j = skip_ws(s, i + 1);
        if j < n && s[j] == '}' {
            return Ok(j + 1);
        }
        assert(spec_skip_value(s@, i as int) == spec_member_list(s@, j as int));
        loop
            invariant
                i < j <= n,
                n == s@.len(),
                spec_skip_value(s@, i as int) == spec_member_list(s@, j as int),
            decreases n - j,
        {
            if j >= n || s[j] != '"' {
                return Err(ProbeParseError {});
            }
            let j2 = match parse_string(s, j) {
                Ok(p) => p.1,
                Err(e) => {
                    return Err(e);
                },
            };
            let j3 = skip_ws(s, j2);
            if j3 >= n || s[j3] != ':' {
                return Err(ProbeParseError {});
            }
            let j4 = skip_ws(s, j3 + 1);
            let j5 = match skip_value(s, j4) {
                Ok(e) => e,
                Err(e) => {
                    return Err(e);
                },
            };
            let j6 = skip_ws(s, j5);
            if j6 >= n {
                return Err(ProbeParseError {});
            }
            if s[j6] == ',' {
                j = skip_ws(s, j6 + 1);
            } else if s[j6] == '}' {
                return Ok(j6 + 1);
            } else {
                return Err(ProbeParseError {});
            }
        }
    } else if c == '[' {
        let mut j = skip_ws(s, i + 1);
        if j < n && s[j] == ']' {
            return Ok(j + 1);
        }
        assert(spec_skip_value(s@, i as int) == spec_element_list(s@, j as int));
        loop
            invariant
                i < j <= n,
                n == s@.len(),
                spec_skip_value(s@, i as int) == spec_element_list(s@, j as int),
            decreases n - j,
        {
            let j2 = match skip_value(s, j) {
                Ok(e) => e,
                Err(e) => {
                    return Err(e);
                },
            };
            let j3 = skip_ws(s, j2);
            if j3 >= n {
                return Err(ProbeParseError {});
            }
            if s[j3] == ',' {
                j = skip_ws(s, j3 + 1);
            } else if s[j3] == ']' {
                return Ok(j3 + 1);
            } else {
                return Err(ProbeParseError {});
            }
        }
    } else if c == 't' {
        if n - i >= 4 && s[i + 1] == 'r' && s[i + 2] == 'u' && s[i + 3] == 'e' {
            Ok(i + 4)
        } else {
            Err(ProbeParseError {})
        }
    } else if c == 'f' {
        if n - i >= 5 && s[i + 1] == 'a' && s[i + 2] == 'l' && s[i + 3] == 's' && s[i + 4] == 'e' {
            Ok(i + 5)
        } else {
            Err(ProbeParseError {})
        }
    } else if c == 'n' {
        if n - i >= 4 && s[i + 1] == 'u' && s[i + 2] == 'l' && s[i + 3] == 'l' {
            Ok(i + 4)
        } else {
            Err(ProbeParseError {})
        }
    } else if c == '-' || is_digit_char(c) {
        scan_number(s, i)
    } else {
        Err(ProbeParseError {})
    }
}

/// The tracks of an optional already-parsed track list.
pub open spec fn opt_streams_view(o: Option<Vec<StreamInfo>>) -> Option<Seq<StreamView>> {
    match o {
        Some(v) => Some(stream_views(v@)),
        None => None,
    }
}

/// The contents of an optional character vector.
pub open spec fn opt_chars_view(o: Option<Vec<char>>) -> Option<Seq<char>> {
    match o {
        Some(v) => Some(v@),
        None => None,
    }
}

/// The value of an optional machine integer.
pub open spec fn opt_i32_view(o: Option<i32>) -> Option<int> {
    match o {
        Some(v) => Some(v as int),
        None => None,
    }
}

/// The value of optional tags.
pub open spec fn opt_tags_view(o: Option<StreamTags>) -> Option<(Seq<char>, Option<Seq<char>>)> {
    match o {
        Some(t) => Some((t.language@, opt_str_view(t.title))),
        None => None,
    }
}

/// The `tags` object of one track: its `language` and `title` members,
/// other members stepped over; a missing `language` is the empty code, a
/// missing `title` no title, and a repeated member a malformed report.
/// `Ok` carries the tags and the position just past the object.
fn parse_tags(s: &Vec<char>, i: usize) -> (r: Result<(StreamTags, usize), ProbeParseError>)
    requires
        i < s@.len(),
        s@[i as int] == '{',
    ensures
        r matches Ok(p) ==> i < p.1 <= s@.len(),
        (match r {
            Ok(p) => Some(((p.0.language@, opt_str_view(p.0.title)), p.1 as int)),
            Err(_) => None::<((Seq<char>, Option<Seq<char>>), int)>,
        }) == spec_parse_tags(s@, i as int),
{
    let n = s.len();
    let mut language: Option<Vec<char>> = None;
    let mut title: Option<Vec<char>> = None;
    let mut j = skip_ws(s, i + 1);
    if j < n && s[j] == '}' {
        let empty = String::new();
        proof {
            assert(empty@ =~= Seq::<char>::empty());
        }
        return Ok((StreamTags { language: empty, title: None }, j + 1));
    }
    assert(spec_parse_tags(s@, i as int) == spec_tags_members(s@, j as int, None, None));
    loop
        invariant
            i < j <= n,
            n == s@.len(),
            spec_parse_tags(s@, i as int) == spec_tags_members(
                s@,
                j as int,
                opt_chars_view(language),
                opt_chars_view(title),
            ),
        decreases n - j,
    {
        if j >= n || s[j] != '"' {
            return Err(ProbeParseError {});
        }
        let (key, j2) = match parse_string(s, j) {
            Ok(p) => p,
            Err(e) => {
                return Err(e);
            },
        };
        let j3 = skip_ws(s, j2);
        if j3 >= n || s[j3] != ':' {
            return Err(ProbeParseError {});
        }
        let j4 = skip_ws(s, j3 + 1);
        if chars_eq(&key, "language") {
            if language.is_some() {
                return Err(ProbeParseError {});
            }
            if j4 >= n || s[j4] != '"' {
                return Err(ProbeParseError {});
            }
            let (v, j5) = match parse_string(s, j4) {
                Ok(p) => p,
                Err(e) => {
                    return Err(e);
                },
            };
            language = Some(v);
            j = j5;
        } else if chars_eq(&key, "title") {
            if title.is_some() {
                return Err(ProbeParseError {});
            }
            if j4 >= n || s[j4] != '"' {
                return Err(ProbeParseError {});
            }
            let (v, j5) = match parse_string(s, j4) {
                Ok(p) => p,
                Err(e) => {
                    return Err(e);
                },
            };
            title = Some(v);
            j = j5;
        } else {
            let j5 = match skip_value(s, j4) {
                Ok(e) => e,
                Err(e) => {
                    return Err(e);
                },
            };
            j = j5;
        }
        let j6 = skip_ws(s, j);
        if j6 >= n {
            return Err(ProbeParseError {});
        }
        if s[j6] == ',' {
            j = skip_ws(s, j6 + 1);
        } else if s[j6] == '}' {
            let language_s = match language {
                Some(v) => chars_to_string(&v),
                None => String::new(),
            };
            let title_s = match title {
                Some(v) => Some(chars_to_string(&v)),
                None => None,
            };
            proof {
                if language is None {
                    assert(language_s@ =~= Seq::<char>::empty());
                }
            }
            return Ok((StreamTags { language: language_s, title: title_s }, j6 + 1));
        } else {
            return Err(ProbeParseError {});
        }
    }
}

/// One track object of the report: `index` and `codec_type` must be
/// there, `tags` may be, anything else is stepped over; a repeated known
/// member is a malformed report.  `Ok` carries the descriptor and the
/// position just past the object.
fn parse_stream(s: &Vec<char>, i: usize) -> (r: Result<(StreamInfo, usize), ProbeParseError>)
    requires
        i < s@.len(),
        s@[i as int] == '{',
    ensures
        r matches Ok(p) ==> i < p.1 <= s@.len(),
        (match r {
            Ok(p) => Some((stream_view(p.0), p.1 as int)),
            Err(_) => None::<(StreamView, int)>,
        }) == spec_parse_stream(s@, i as int),
{
    let n = s.len();
    let mut index: Option<i32> = None;
    let mut codec: Option<Vec<char>> = None;
    let mut tags: Option<StreamTags> = None;
    let mut j = skip_ws(s, i + 1);
    if j < n && s[j] == '}' {
        return Err(ProbeParseError {});
    }
    assert(spec_parse_stream(s@, i as int) == spec_stream_members(s@, j as int, None, None, None));
    loop
        invariant
            i < j <= n,
            n == s@.len(),
            spec_parse_stream(s@, i as int) == spec_stream_members(
                s@,
                j as int,
                opt_i32_view(index),
                opt_chars_view(codec),
                opt_tags_view(tags),
            ),
        decreases n - j,
    {
        if j >= n || s[j] != '"' {
            return Err(ProbeParseError {});
        }
        let (key, j2) = match parse_string(s, j) {
            Ok(p) => p,
            Err(e) => {
                return Err(e);
            },
        };
        let j3 = skip_ws(s, j2);
        if j3 >= n || s[j3] != ':' {
            return Err(ProbeParseError {});
        }
        let j4 = skip_ws(s, j3 + 1);
        if chars_eq(&key, "index") {
            if index.is_some() || j4 >= n {
                return Err(ProbeParseError {});
            }
            let (v, j5) = match parse_int_value(s, j4) {
                Ok(p) => p,
                Err(e) => {
                    return Err(e);
                },
            };
            index = Some(v);
            j = j5;
        } else if chars_eq(&key, "codec_type") {
            if codec.is_some() || j4 >= n {
                return Err(ProbeParseError {});
            }
            if s[j4] != '"' {
                return Err(ProbeParseError {});
            }
            let (v, j5) = match parse_string(s, j4) {
                Ok(p) => p,
                Err(e) => {
                    return Err(e);
                },
            };
            codec = Some(v);
            j = j5;
        } else if chars_eq(&key, "tags") {
            if tags.is_some() || j4 >= n {
                return Err(ProbeParseError {});
            }
            if s[j4] != '{' {
                return Err(ProbeParseError {});
            }
            let (t, j5) = match parse_tags(s, j4) {
                Ok(p) => p,
                Err(e) => {
                    return Err(e);
                },
            };
            tags = Some(t);
            j = j5;
        } else {
            let j5 = match skip_value(s, j4) {
                Ok(e) => e,
                Err(e) => {
                    return Err(e);
                },
            };
            j = j5;
        }
        let j6 = skip_ws(s, j);
        if j6 >= n {
            return Err(ProbeParseError {});
        }
        if s[j6] == ',' {
            j = skip_ws(s, j6 + 1);
        } else if s[j6] == '}' {
            let idx = match index {
                Some(v) => v,
                None => {
                    return Err(ProbeParseError {});
                },
            };
            let codec_s = match codec {
                Some(v) => chars_to_string(&v),
                None => {
                    return Err(ProbeParseError {});
                },
            };
            let tags_v = match tags {
                Some(t) => t,
                None => StreamTags { language: String::new(), title: None },
            };
            proof {
                if tags is None {
                    assert(tags_v.language@ =~= Seq::<char>::empty());
                }
            }
            return Ok((StreamInfo { index: idx, codec_type: codec_s, tags: tags_v }, j6 + 1));
        } else {
            return Err(ProbeParseError {});
        }
    }
}

/// The `streams` array of the report: track objects between `[` and `]`.
fn parse_streams_array(s: &Vec<char>, i: usize) -> (r: Result<
    (Vec<StreamInfo>, usize),
    ProbeParseError,
>)
    requires
        i < s@.len(),
        s@[i as int] == '[',
    ensures
        r matches Ok(p) ==> i < p.1 <= s@.len(),
        (match r {
            Ok(p) => Some((stream_views(p.0@), p.1 as int)),
            Err(_) => None::<(Seq<StreamView>, int)>,
        }) == spec_parse_streams_array(s@, i as int),
{
    let n = s.len();
    let mut items: Vec<StreamInfo> = Vec::new();
    let mut k = skip_ws(s, i + 1);
    proof {
        assert(stream_views(items@) =~= Seq::<StreamView>::empty());
    }
    if k < n && s[k] == ']' {
        return Ok((items, k + 1));
    }
    assert(spec_parse_streams_array(s@, i as int) == spec_streams_elements(
        s@,
        k as int,
        stream_views(items@),
    ));
    loop
        invariant
            i < k <= n,
            n == s@.len(),
            spec_parse_streams_array(s@, i as int) == spec_streams_elements(
                s@,
                k as int,
                stream_views(items@),
            ),
        decreases n - k,
    {
        if k >= n || s[k] != '{' {
            return Err(ProbeParseError {});
        }
        let (info, k2) = match parse_stream(s, k) {
            Ok(p) => p,
            Err(e) => {
                return Err(e);
            },
        };
        let ghost items0 = items@;
        items.push(info);
        proof {
            assert(stream_views(items@) =~= stream_views(items0).push(stream_view(info)));
        }
        let k3 = skip_ws(s, k2);
        if k3 >= n {
            return Err(ProbeParseError {});
        }
        if s[k3] == ',' {
            k = skip_ws(s, k3 + 1);
        } else if s[k3] == ']' {
            return Ok((items, k3 + 1));
        } else {
            return Err(ProbeParseError {});
        }
    }
}

/// Parses the probing tool's JSON report: the `streams` member of the
/// top-level object, each entry — of every kind, unfiltered — yielding
/// one track descriptor, in report order.  Members the report may carry
/// beyond those this library reads are accepted and stepped over.  The
/// parse succeeds exactly on a well-formed report and returns exactly
/// its tracks, as `parsed_report` lays down.
pub fn parse_probe_output(text: &str) -> (r: Result<Vec<StreamInfo>, ProbeParseError>)
    ensures
        r matches Ok(v) ==> parsed_report(text@) == Some(stream_views(v@)),
        r is Ok <==> well_formed_report(text@),
{
    let s = str_chars(text);
    let n = s.len();
    let j0 = skip_ws(&s, 0);
    if j0 >= n || s[j0] != '{' {
        return Err(ProbeParseError {});
    }
    let mut j = skip_ws(&s, j0 + 1);
    let mut streams: Option<Vec<StreamInfo>> = None;
    if j < n && s[j] == '}' {
        return Err(ProbeParseError {});
    }
    assert(parsed_report(text@) == spec_report_members(text@, j as int, opt_streams_view(streams)));
    loop
        invariant
            j <= n,
            n == s@.len(),
            s@ == text@,
            parsed_report(text@) == spec_report_members(
                text@,
                j as int,
                opt_streams_view(streams),
            ),
        decreases n - j,
    {
        if j >= n || s[j] != '"' {
            return Err(ProbeParseError {});
        }
        let (key, j2) = match parse_string(&s, j) {
            Ok(p) => p,
            Err(e) => {
                return Err(e);
            },
        };
        let j3 = skip_ws(&s, j2);
        if j3 >= n || s[j3] != ':' {
            return Err(ProbeParseError {});
        }
        let j4 = skip_ws(&s, j3 + 1);
        if chars_eq(&key, "streams") {
            if streams.is_some() || j4 >= n {
                return Err(ProbeParseError {});
            }
            if s[j4] != '[' {
                return Err(ProbeParseError {});
            }
            let (items, j5) = match parse_streams_array(&s, j4) {
                Ok(p) => p,
                Err(e) => {
                    return Err(e);
                },
            };
            streams = Some(items);
            j = j5;
        } else {
            let j5 = match skip_value(&s, j4) {
                Ok(e) => e,
                Err(e) => {
                    return Err(e);
                },
            };
            j = j5;
        }
        let j6 = skip_ws(&s, j);
        if j6 >= n {
            return Err(ProbeParseError {});
        }
        if s[j6] == ',' {
            j = skip_ws(&s, j6 + 1);
        } else if s[j6] == '}' {
            let j7 = skip_ws(&s, j6 + 1);
            if j7 < n {
                return Err(ProbeParseError {});
            }
            return match streams {
                Some(v) => Ok(v),
                None => Err(ProbeParseError {}),
            };
        } else {
            return Err(ProbeParseError {});
        }
    }
}

} // verus!
