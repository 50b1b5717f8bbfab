//! Folder names between their display form and the modified UTF-7 form
//! that the protocol carries.
use vstd::prelude::*;

verus! {

/// The six-bit value of a character of the modified base-64 alphabet, where
/// `,` stands for `/`; -1 for any other character.
pub open spec fn b64_value(c: char) -> int {
    if 'A' <= c && c <= 'Z' {
        c as int - 'A' as int
    } else if 'a' <= c && c <= 'z' {
        c as int - 'a' as int + 26
    } else if '0' <= c && c <= '9' {
        c as int - '0' as int + 52
    } else if c == '+' {
        62
    } else if c == ',' {
        63
    } else {
        -1
    }
}

/// A shifted run that decodes: base-64 characters only, a length that is
/// not one more than a multiple of four, and no stray bits in the last one.
pub open spec fn segment_ok(seg: Seq<char>) -> bool {
    &&& forall|k: int| 0 <= k < seg.len() ==> b64_value(#[trigger] seg[k]) >= 0
    &&& seg.len() % 4 != 1
    &&& seg.len() % 4 == 2 ==> b64_value(seg.last()) % 16 == 0
    &&& seg.len() % 4 == 3 ==> b64_value(seg.last()) % 4 == 0
}

/// The index of the first `-` at or after `j`, or the length when there is none.
pub open spec fn dash_after(s: Seq<char>, j: int) -> int
    decreases s.len() - j,
{
    if j >= s.len() {
        s.len() as int
    } else if s[j] == '-' {
        j
    } else {
        dash_after(s, j + 1)
    }
}

/// From position `i` on, every `&` that opens a shifted run (closed by the
/// next `-`) is followed by a run that decodes.
pub open spec fn wire_ok_from(s: Seq<char>, i: int) -> bool
    decreases s.len() - i,
{
    if i < 0 || i >= s.len() {
        true
    } else if s[i] != '&' {
        wire_ok_from(s, i + 1)
    } else {
        let d = dash_after(s, i + 1);
        if d >= s.len() || d <= i {
            true
        } else {
            (d == i + 1 || segment_ok(s.subrange(i + 1, d))) && wire_ok_from(s, d + 1)
        }
    }
}

/// A folder name in the form that the protocol carries.
pub open spec fn wire_name_ok(s: Seq<char>) -> bool {
    wire_ok_from(s, 0)
}

/// The characters that the encoder keeps as they are (besides `&`).
pub open spec fn kept_plain(c: char) -> bool {
    ' ' <= c && c <= '\u{7f}'
}

/// Whether a shifted run starting at `i` begins with UTF-16 code units that
/// read as a byte-order mark: FE FF, FF FE, or EF BB BF.
pub open spec fn starts_like_bom(s: Seq<char>, i: int) -> bool {
    ||| s[i] == '\u{feff}'
    ||| s[i] == '\u{fffe}'
    ||| (s[i] == '\u{efbb}' && i + 1 < s.len() && '\u{bf00}' <= s[i + 1] && s[i + 1] <= '\u{bfff}')
}

/// No run of characters that the encoder shifts into base-64 starts with
/// units that the decoder would take for a byte-order mark.
pub open spec fn runs_free_of_bom(s: Seq<char>) -> bool {
    forall|i: int|
        0 <= i < s.len() && !kept_plain(#[trigger] s[i]) && (i == 0 || kept_plain(s[i - 1]))
            ==> !starts_like_bom(s, i)
}

/// The wire form that `utf7_imap::encode_utf7_imap` gives a display name.
pub uninterp spec fn utf7_encoded_of(s: Seq<char>) -> Seq<char>;

/// The display name that `utf7_imap::decode_utf7_imap` gives a wire form.
pub uninterp spec fn utf7_decoded_of(s: Seq<char>) -> Seq<char>;

/// Relies on `utf7_imap::encode_utf7_imap`: it writes `&` as `&-`, keeps the
/// other printable ASCII characters, and writes each other run as `&`, the
/// unpadded base-64 of its UTF-16 with `,` for `/`, and `-`. Decoding reads
/// each run back with `encoding_rs::Encoding::decode`, which strips a leading
/// byte-order mark, so the name comes back when no run starts like one.
#[verifier::external_body]
fn utf7_encode(name: &str) -> (r: String)
    ensures
        r@ == utf7_encoded_of(name@),
        wire_name_ok(r@),
        runs_free_of_bom(name@) ==> utf7_decoded_of(r@) == name@,
{
    utf7_imap::encode_utf7_imap(name.to_string())
}

/// Relies on `utf7_imap::decode_utf7_imap`, which panics on a shifted run
/// that is not base-64.
#[verifier::external_body]
fn utf7_decode(wire: &str) -> (r: String)
    requires
        wire_name_ok(wire@),
    ensures
        r@ == utf7_decoded_of(wire@),
{
    utf7_imap::decode_utf7_imap(wire.to_string())
}

/// The display name of a wire form, when it decodes.
pub open spec fn folder_display_of(wire: Seq<char>) -> Option<Seq<char>> {
    if wire_name_ok(wire) {
        Some(utf7_decoded_of(wire))
    } else {
        None
    }
}

fn b64_digit(c: char) -> (r: i32)
    ensures
        r as int == b64_value(c),
{
    if 'A' <= c && c <= 'Z' {
        (c as u32 - 'A' as u32) as i32
    } else if 'a' <= c && c <= 'z' {
        (c as u32 - 'a' as u32 + 26) as i32
    } else if '0' <= c && c <= '9' {
        (c as u32 - '0' as u32 + 52) as i32
    } else if c == '+' {
        62
    } else if c == ',' {
        63
    } else {
        -1
    }
}

/// Whether the characters of `s` from `start` up to `end` form a run that decodes.
fn check_segment(s: &str, start: usize, end: usize) -> (r: bool)
    requires
        start <= end <= s@.len(),
    ensures
        r == segment_ok(s@.subrange(start as int, end as int)),
{
    let ghost seg = s@.subrange(start as int, end as int);
    let mut k: usize = start;
    while k < end
        invariant
            start <= k <= end,
            end <= s@.len(),
            seg == s@.subrange(start as int, end as int),
            forall|m: int| 0 <= m < k - start ==> b64_value(#[trigger] seg[m]) >= 0,
        decreases end - k,
    {
        if b64_digit(s.get_char(k)) < 0 {
            assert(seg[k - start] == s@[k as int]);
            return false;
        }
        assert(seg[k - start] == s@[k as int]);
        k = k + 1;
    }
    let len = end - start;
    if len % 4 == 1 {
        return false;
    }
    if len % 4 == 2 || len % 4 == 3 {
        let v = b64_digit(s.get_char(end - 1));
        assert(seg.last() == s@[end - 1]);
        if len % 4 == 2 {
            return v % 16 == 0;
        } else {
            return v % 4 == 0;
        }
    }
    true
}

/// Encodes a display name into its wire form. The wire form always decodes,
/// and gives the name back unless a shifted run starts like a byte-order mark.
pub fn encode_folder_name(name: &str) -> (r: String)
    ensures
        r@ == utf7_encoded_of(name@),
        folder_display_of(r@) is Some,
        runs_free_of_bom(name@) ==> folder_display_of(r@) == Some(name@),
{
    utf7_encode(name)
}

/// Decodes a wire form into its display name; `None` when a shifted run in
/// it does not decode.
pub fn decode_folder_name(wire: &str) -> (r: Option<String>)
    ensures
        match r {
            Some(d) => folder_display_of(wire@) == Some(d@),
            None => folder_display_of(wire@) is None,
        },
{
    let n = wire.unicode_len();
    let mut i: usize = 0;
    while i < n
        invariant
            n == wire@.len(),
            i <= n,
            wire_ok_from(wire@, 0) == wire_ok_from(wire@, i as int),
        decreases n - i,
    {
        if wire.get_char(i) != '&' {
            i = i + 1;
        } else {
            let mut d: usize = i + 1;
            while d < n && wire.get_char(d) != '-'
                invariant
                    n == wire@.len(),
                    i < d <= n,
                    dash_after(wire@, i + 1) == dash_after(wire@, d as int),
                decreases n - d,
            {
                d = d + 1;
            }
            if d >= n {
                i = n;
            } else {
                if d != i + 1 && !check_segment(wire, i + 1, d) {
                    return None;
                }
                i = d + 1;
            }
        }
    }
    Some(utf7_decode(wire))
}

/// The display names of the wire forms in `ws` that decode, in order.
pub open spec fn display_names_of(ws: Seq<Seq<char>>) -> Seq<Seq<char>>
    decreases ws.len(),
{
    if ws.len() == 0 {
        Seq::empty()
    } else {
        let init = display_names_of(ws.drop_last());
        match folder_display_of(ws.last()) {
            Some(d) => init.push(d),
            None => init,
        }
    }
}

/// The wire forms in `ws` that do not decode, in order.
pub open spec fn undecodable_of(ws: Seq<Seq<char>>) -> Seq<Seq<char>>
    decreases ws.len(),
{
    if ws.len() == 0 {
        Seq::empty()
    } else {
        let init = undecodable_of(ws.drop_last());
        match folder_display_of(ws.last()) {
            Some(_) => init,
            None => init.push(ws.last()),
        }
    }
}

/// Decodes each listed wire form. Returns the display names of those that
/// decode, and, to be reported, the wire forms of those that do not.
pub fn decode_folder_names(wires: &Vec<String>) -> (r: (Vec<String>, Vec<String>))
    ensures
        r.0@.map_values(|n: String| n@) == display_names_of(wires@.map_values(|w: String| w@)),
        r.1@.map_values(|n: String| n@) == undecodable_of(wires@.map_values(|w: String| w@)),
{
    let ghost ws = wires@.map_values(|w: String| w@);
    let mut out: Vec<String> = Vec::new();
    let mut bad: Vec<String> = Vec::new();
    let mut i: usize = 0;
    proof {
        assert(ws.take(0) =~= Seq::<Seq<char>>::empty());
    }
    while i < wires.len()
        invariant
            i <= wires@.len(),
            ws == wires@.map_values(|w: String| w@),
            out@.map_values(|n: String| n@) == display_names_of(ws.take(i as int)),
            bad@.map_values(|n: String| n@) == undecodable_of(ws.take(i as int)),
        decreases wires.len() - i,
    {
        proof {
            assert(ws.take(i + 1).drop_last() =~= ws.take(i as int));
            assert(ws.take(i + 1).last() == wires@[i as int]@);
        }
        match decode_folder_name(wires[i].as_str()) {
            Some(d) => {
                let ghost prev = out@;
                out.push(d);
                assert(out@.map_values(|n: String| n@) =~= prev.map_values(|n: String| n@).push(d@));
            },
            None => {
                let ghost prev = bad@;
                let w = wires[i].clone();
                bad.push(w);
                assert(bad@.map_values(|n: String| n@) =~= prev.map_values(|n: String| n@).push(wires@[i as int]@));
            },
        }
        i = i + 1;
    }
    assert(ws.take(wires@.len() as int) =~= ws);
    (out, bad)
}

} // verus!
