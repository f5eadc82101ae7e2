use vstd::prelude::*;
use vstd::string::StringSliceAdditionalSpecFns;
use crate::text::{dec_digits, decimal_bytes, latin1_text, push_latin1};

verus! {

/// A display colour as red, green and blue channels.
#[derive(Clone, Copy, Debug, PartialEq, Eq, Structural)]
pub struct Rgb {
    pub r: u8,
    pub g: u8,
    pub b: u8,
}

pub open spec fn rgb(r: u8, g: u8, b: u8) -> Rgb {
    Rgb { r, g, b }
}

/// The colour that text takes when no code, or an unknown code, has set one.
pub open spec fn white() -> Rgb {
    rgb(255, 255, 255)
}

/// A colour code that the table knows.
///
/// `Standard` is written `"0;3h"` (normal) or `"1;3h"` (bright) for a hue `h`
/// below 8; `Xterm` is written `"38;5;n"` with `n` in decimal.
#[derive(Clone, Copy, Debug, PartialEq, Eq, Structural)]
pub enum ColorCode {
    Standard { bright: bool, hue: u8 },
    Xterm { index: u8 },
}

impl ColorCode {
    pub open spec fn wf(self) -> bool {
        match self {
            ColorCode::Standard { hue, .. } => hue < 8,
            ColorCode::Xterm { .. } => true,
        }
    }
}

/// The eight normal and eight bright ANSI colours.
pub open spec fn standard_rgb(bright: bool, hue: u8) -> Rgb {
    if !bright {
        if hue == 0 { rgb(0, 0, 0) }
        else if hue == 1 { rgb(128, 0, 0) }
        else if hue == 2 { rgb(0, 128, 0) }
        else if hue == 3 { rgb(128, 128, 0) }
        else if hue == 4 { rgb(0, 0, 128) }
        else if hue == 5 { rgb(128, 0, 128) }
        else if hue == 6 { rgb(0, 128, 128) }
        else { rgb(192, 192, 192) }
    } else {
        if hue == 0 { rgb(128, 128, 128) }
        else if hue == 1 { rgb(255, 0, 0) }
        else if hue == 2 { rgb(0, 255, 0) }
        else if hue == 3 { rgb(255, 255, 0) }
        else if hue == 4 { rgb(0, 0, 255) }
        else if hue == 5 { rgb(255, 0, 255) }
        else if hue == 6 { rgb(0, 255, 255) }
        else { rgb(255, 255, 255) }
    }
}

/// The 256-colour xterm palette: black below 16, then the 6x6x6 cube in steps
/// of 51, then a grey ramp from black to white.
pub open spec fn xterm_rgb(n: u8) -> Rgb {
    if n < 16 {
        rgb(0, 0, 0)
    } else if n < 232 {
        rgb(
            (((n - 16) / 36) * 51) as u8,
            ((((n - 16) % 36) / 6) * 51) as u8,
            (((n - 16) % 6) * 51) as u8,
        )
    } else {
        let v = (((n - 232) * 255) / 23) as u8;
        rgb(v, v, v)
    }
}

pub open spec fn code_rgb(c: ColorCode) -> Rgb {
    match c {
        ColorCode::Standard { bright, hue } => standard_rgb(bright, hue),
        ColorCode::Xterm { index } => xterm_rgb(index),
    }
}

/// The text of a code, as ASCII bytes.
pub open spec fn code_bytes(c: ColorCode) -> Seq<u8> {
    match c {
        ColorCode::Standard { bright, hue } => seq![
            if bright { 49u8 } else { 48u8 },
            59u8,
            51u8,
            (48 + hue) as u8,
        ],
        ColorCode::Xterm { index } => seq![51u8, 56u8, 59u8, 53u8, 59u8] + dec_digits(index as nat),
    }
}

pub open spec fn is_digit(b: u8) -> bool {
    48 <= b <= 57
}

/// The value of a run of decimal digits.
pub open spec fn digits_value(d: Seq<u8>) -> nat
    decreases d.len(),
{
    if d.len() == 0 {
        0
    } else {
        digits_value(d.drop_last()) * 10 + (d.last() - 48) as nat
    }
}

/// A number in canonical decimal form: one to three digits, no leading zero.
pub open spec fn canonical_small_decimal(d: Seq<u8>) -> bool {
    &&& 1 <= d.len() <= 3
    &&& forall|i: int| 0 <= i < d.len() ==> is_digit(#[trigger] d[i])
    &&& (d.len() == 1 || d[0] != 48)
}

/// The code that a text names, if the table knows it.
pub open spec fn parse_code(s: Seq<u8>) -> Option<ColorCode> {
    if s.len() == 4 && (s[0] == 48 || s[0] == 49) && s[1] == 59 && s[2] == 51 && 48 <= s[3] <= 55 {
        Some(ColorCode::Standard { bright: s[0] == 49, hue: (s[3] - 48) as u8 })
    } else if s.len() > 5 && s.subrange(0, 5) == seq![51u8, 56u8, 59u8, 53u8, 59u8]
        && canonical_small_decimal(s.subrange(5, s.len() as int))
        && digits_value(s.subrange(5, s.len() as int)) <= 255 {
        Some(ColorCode::Xterm { index: digits_value(s.subrange(5, s.len() as int)) as u8 })
    } else {
        None
    }
}

/// The colour that a code text resolves to: its table entry, or white when
/// the table has none.
pub open spec fn lookup_spec(s: Seq<u8>) -> Rgb {
    match parse_code(s) {
        Some(c) => code_rgb(c),
        None => white(),
    }
}

/// Number of entries in the table.
pub const TABLE_LEN: usize = 272;

/// The table's entries in order: the eight normal colours, the eight bright
/// ones, then the xterm palette from 0 to 255.
pub open spec fn code_at(i: int) -> ColorCode {
    if i < 8 {
        ColorCode::Standard { bright: false, hue: i as u8 }
    } else if i < 16 {
        ColorCode::Standard { bright: true, hue: (i - 8) as u8 }
    } else {
        ColorCode::Xterm { index: (i - 16) as u8 }
    }
}

pub fn white_rgb() -> (c: Rgb)
    ensures
        c == white(),
{
    Rgb { r: 255, g: 255, b: 255 }
}

/// The colour of a standard ANSI code.
pub fn standard_color(bright: bool, hue: u8) -> (c: Rgb)
    requires
        hue < 8,
    ensures
        c == standard_rgb(bright, hue),
{
    if !bright {
        if hue == 0 { Rgb { r: 0, g: 0, b: 0 } }
        else if hue == 1 { Rgb { r: 128, g: 0, b: 0 } }
        else if hue == 2 { Rgb { r: 0, g: 128, b: 0 } }
        else if hue == 3 { Rgb { r: 128, g: 128, b: 0 } }
        else if hue == 4 { Rgb { r: 0, g: 0, b: 128 } }
        else if hue == 5 { Rgb { r: 128, g: 0, b: 128 } }
        else if hue == 6 { Rgb { r: 0, g: 128, b: 128 } }
        else { Rgb { r: 192, g: 192, b: 192 } }
    } else {
        if hue == 0 { Rgb { r: 128, g: 128, b: 128 } }
        else if hue == 1 { Rgb { r: 255, g: 0, b: 0 } }
        else if hue == 2 { Rgb { r: 0, g: 255, b: 0 } }
        else if hue == 3 { Rgb { r: 255, g: 255, b: 0 } }
        else if hue == 4 { Rgb { r: 0, g: 0, b: 255 } }
        else if hue == 5 { Rgb { r: 255, g: 0, b: 255 } }
        else if hue == 6 { Rgb { r: 0, g: 255, b: 255 } }
        else { Rgb { r: 255, g: 255, b: 255 } }
    }
}

/// The colour of entry `n` of the xterm palette.
pub fn xterm_color(n: u8) -> (c: Rgb)
    ensures
        c == xterm_rgb(n),
{
    if n < 16 {
        Rgb { r: 0, g: 0, b: 0 }
    } else if n < 232 {
        let k = n - 16;
        assert((k / 36) * 51 <= 255) by (nonlinear_arith)
            requires k < 216;
        assert(((k % 36) / 6) * 51 <= 255) by (nonlinear_arith)
            requires k < 216;
        Rgb { r: (k / 36) * 51, g: ((k % 36) / 6) * 51, b: (k % 6) * 51 }
    } else {
        let k: u32 = (n - 232) as u32;
        assert((k * 255) / 23 <= 255) by (nonlinear_arith)
            requires k <= 23;
        let v = ((k * 255) / 23) as u8;
        Rgb { r: v, g: v, b: v }
    }
}

pub fn code_color(c: ColorCode) -> (r: Rgb)
    requires
        c.wf(),
    ensures
        r == code_rgb(c),
{
    match c {
        ColorCode::Standard { bright, hue } => standard_color(bright, hue),
        ColorCode::Xterm { index } => xterm_color(index),
    }
}


proof fn lemma_digits_value_step(d: Seq<u8>, i: int)
    requires
        0 <= i < d.len(),
    ensures
        digits_value(d.subrange(0, i + 1)) == digits_value(d.subrange(0, i)) * 10 + (d[i] - 48) as nat,
{
    assert(d.subrange(0, i + 1).drop_last() =~= d.subrange(0, i));
}

proof fn lemma_digits_value_short(d: Seq<u8>)
    requires
        1 <= d.len() <= 3,
    ensures
        d.len() == 1 ==> digits_value(d) == (d[0] - 48) as nat,
        d.len() == 2 ==> digits_value(d) == (d[0] - 48) as nat * 10 + (d[1] - 48) as nat,
        d.len() == 3 ==> digits_value(d) == ((d[0] - 48) as nat * 10 + (d[1] - 48) as nat) * 10
            + (d[2] - 48) as nat,
{
    let e = Seq::<u8>::empty();
    assert(digits_value(e) == 0);
    if d.len() == 1 {
        assert(d.drop_last() =~= e);
    } else if d.len() == 2 {
        let a = d.drop_last();
        assert(a.drop_last() =~= e);
        assert(digits_value(a) == (a[0] - 48) as nat);
    } else {
        let a = d.drop_last();
        let b = a.drop_last();
        assert(b.drop_last() =~= e);
        assert(digits_value(b) == (b[0] - 48) as nat);
        assert(digits_value(a) == digits_value(b) * 10 + (a[1] - 48) as nat);
    }
}

/// The decimal text of a palette index is canonical and reads back as the index.
pub proof fn lemma_dec_digits_canonical(n: u8)
    ensures
        canonical_small_decimal(dec_digits(n as nat)),
        digits_value(dec_digits(n as nat)) == n as nat,
{
    let d = dec_digits(n as nat);
    if n < 10 {
        assert(d == seq![(48 + n) as u8]);
        lemma_digits_value_short(d);
    } else if n < 100 {
        let hi = dec_digits((n / 10) as nat);
        assert(hi == seq![(48 + n / 10) as u8]);
        assert(d =~= seq![(48 + n / 10) as u8, (48 + n % 10) as u8]);
        lemma_digits_value_short(d);
    } else {
        let m = (n / 10) as nat;
        let top = dec_digits(m / 10);
        assert(top == seq![(48 + m / 10) as u8]);
        assert(dec_digits(m) =~= seq![(48 + m / 10) as u8, (48 + m % 10) as u8]);
        assert(d =~= seq![(48 + m / 10) as u8, (48 + m % 10) as u8, (48 + n % 10) as u8]);
        lemma_digits_value_short(d);
    }
}

/// A canonical decimal text is the decimal text of its value.
pub proof fn lemma_canonical_is_dec_digits(d: Seq<u8>)
    requires
        canonical_small_decimal(d),
        digits_value(d) <= 255,
    ensures
        dec_digits(digits_value(d)) == d,
{
    assert(is_digit(d[0]));
    lemma_digits_value_short(d);
    let v = digits_value(d);
    if d.len() == 1 {
        assert(dec_digits(v) =~= d);
    } else if d.len() == 2 {
        assert(is_digit(d[1]));
        assert(v / 10 == (d[0] - 48) as nat && v % 10 == (d[1] - 48) as nat);
        assert(dec_digits(v / 10) =~= seq![d[0]]);
        assert(dec_digits(v) =~= d);
    } else {
        assert(is_digit(d[1]));
        assert(is_digit(d[2]));
        let x = (d[0] - 48) as nat;
        let y = (d[1] - 48) as nat;
        let z = (d[2] - 48) as nat;
        assert(v / 10 == x * 10 + y && v % 10 == z);
        assert((x * 10 + y) / 10 == x && (x * 10 + y) % 10 == y);
        assert(dec_digits(x) =~= seq![d[0]]);
        assert(dec_digits(x * 10 + y) =~= seq![d[0], d[1]]);
        assert(dec_digits(v) =~= d);
    }
}

/// Every code that the table knows reads back from its own text.
pub proof fn lemma_code_round_trip(c: ColorCode)
    requires
        c.wf(),
    ensures
        parse_code(code_bytes(c)) == Some(c),
{
    match c {
        ColorCode::Standard { bright, hue } => {}
        ColorCode::Xterm { index } => {
            let s = code_bytes(c);
            lemma_dec_digits_canonical(index);
            assert(s.subrange(0, 5) =~= seq![51u8, 56u8, 59u8, 53u8, 59u8]);
            assert(s.subrange(5, s.len() as int) =~= dec_digits(index as nat));
        }
    }
}

/// A text that names a code is exactly that code's text, so the table has one
/// spelling for each entry.
pub proof fn lemma_parse_code_exact(s: Seq<u8>)
    requires
        parse_code(s) is Some,
    ensures
        parse_code(s).unwrap().wf(),
        code_bytes(parse_code(s).unwrap()) == s,
{
    let c = parse_code(s).unwrap();
    if s.len() == 4 && (s[0] == 48 || s[0] == 49) && s[1] == 59 && s[2] == 51 && 48 <= s[3] <= 55 {
        assert(code_bytes(c) =~= s);
    } else {
        let d = s.subrange(5, s.len() as int);
        lemma_canonical_is_dec_digits(d);
        assert(code_bytes(c) =~= s.subrange(0, 5) + d);
        assert(s =~= s.subrange(0, 5) + d);
    }
}

/// Reads the code that a text names, if the table knows it.
pub fn parse_code_bytes(s: &[u8]) -> (r: Option<ColorCode>)
    ensures
        r == parse_code(s@),
        r matches Some(c) ==> c.wf(),
{
    let n = s.len();
    if n == 4 && (s[0] == 48 || s[0] == 49) && s[1] == 59 && s[2] == 51 && s[3] >= 48 && s[3] <= 55 {
        return Some(ColorCode::Standard { bright: s[0] == 49, hue: s[3] - 48 });
    }
    if n <= 5 || n > 8 || s[0] != 51 || s[1] != 56 || s[2] != 59 || s[3] != 53 || s[4] != 59 {
        proof {
            if n > 5 && s@.subrange(0, 5) == seq![51u8, 56u8, 59u8, 53u8, 59u8] {
                assert(s@.subrange(0, 5)[0] == s@[0]);
                assert(s@.subrange(0, 5)[1] == s@[1]);
                assert(s@.subrange(0, 5)[2] == s@[2]);
                assert(s@.subrange(0, 5)[3] == s@[3]);
                assert(s@.subrange(0, 5)[4] == s@[4]);
                assert(!canonical_small_decimal(s@.subrange(5, n as int)));
            }
        }
        return None;
    }
    assert(s@.subrange(0, 5) =~= seq![51u8, 56u8, 59u8, 53u8, 59u8]);
    let ghost d = s@.subrange(5, n as int);
    if n > 6 && s[5] == 48 {
        assert(d[0] == 48);
        return None;
    }
    let mut v: u32 = 0;
    let mut i: usize = 5;
    while i < n
        invariant
            5 <= i <= n <= 8,
            n == s@.len(),
            d == s@.subrange(5, n as int),
            v == digits_value(d.subrange(0, i - 5)),
            v < 1000,
            v < 10 || i > 6,
            v < 100 || i > 7,
            forall|j: int| 0 <= j < i - 5 ==> is_digit(#[trigger] d[j]),
        decreases n - i,
    {
        if s[i] < 48 || s[i] > 57 {
            assert(!is_digit(d[i - 5]));
            return None;
        }
        proof {
            lemma_digits_value_step(d, i - 5);
        }
        v = v * 10 + (s[i] - 48) as u32;
        i = i + 1;
    }
    assert(d.subrange(0, n - 5) =~= d);
    if v > 255 {
        return None;
    }
    Some(ColorCode::Xterm { index: v as u8 })
}

/// The colour that a code's bytes resolve to; white for a code the table
/// does not know.
pub fn lookup_bytes(code: &[u8]) -> (c: Rgb)
    ensures
        c == lookup_spec(code@),
{
    match parse_code_bytes(code) {
        Some(k) => code_color(k),
        None => white_rgb(),
    }
}

/// The colour that a code such as `"1;32"` or `"38;5;196"` resolves to;
/// white for a code the table does not know.
pub fn lookup(code: &str) -> (c: Rgb)
    ensures
        c == lookup_spec(code.spec_bytes()),
{
    lookup_bytes(code.as_bytes())
}

/// The first table entry, from position `i` on, whose colour is `color`.
pub open spec fn first_match(color: Rgb, i: int) -> Option<ColorCode>
    decreases TABLE_LEN - i,
{
    if i < 0 || i >= TABLE_LEN {
        None
    } else if code_rgb(code_at(i)) == color {
        Some(code_at(i))
    } else {
        first_match(color, i + 1)
    }
}

/// The code at position `i` of the table.
pub fn code_at_index(i: usize) -> (c: ColorCode)
    requires
        i < TABLE_LEN,
    ensures
        c == code_at(i as int),
        c.wf(),
{
    if i < 8 {
        ColorCode::Standard { bright: false, hue: i as u8 }
    } else if i < 16 {
        ColorCode::Standard { bright: true, hue: (i - 8) as u8 }
    } else {
        ColorCode::Xterm { index: (i - 16) as u8 }
    }
}

/// The text of a code, as bytes.
pub fn code_text_bytes(c: ColorCode) -> (r: Vec<u8>)
    requires
        c.wf(),
    ensures
        r@ == code_bytes(c),
{
    match c {
        ColorCode::Standard { bright, hue } => {
            let mut r: Vec<u8> = Vec::new();
            r.push(if bright { 49u8 } else { 48u8 });
            r.push(59u8);
            r.push(51u8);
            r.push(48u8 + hue);
            assert(r@ =~= code_bytes(c));
            r
        }
        ColorCode::Xterm { index } => {
            let mut r: Vec<u8> = vec![51u8, 56u8, 59u8, 53u8, 59u8];
            let mut d = decimal_bytes(index as u32);
            r.append(&mut d);
            assert(r@ =~= code_bytes(c));
            r
        }
    }
}

/// The text of a code, such as `"1;31"` or `"38;5;196"`.
pub fn code_name(c: ColorCode) -> (r: String)
    requires
        c.wf(),
    ensures
        r@ == latin1_text(code_bytes(c)),
{
    let bytes = code_text_bytes(c);
    let mut r = String::new();
    push_latin1(&mut r, bytes.as_slice());
    assert(r@ =~= latin1_text(code_bytes(c)));
    r
}

/// The first code in table order whose colour is exactly `color`.
pub fn name_for(color: Rgb) -> (r: Option<ColorCode>)
    ensures
        r == first_match(color, 0),
        r matches Some(c) ==> c.wf() && code_rgb(c) == color,
{
    let mut i: usize = 0;
    while i < TABLE_LEN
        invariant
            0 <= i <= TABLE_LEN,
            first_match(color, 0) == first_match(color, i as int),
        decreases TABLE_LEN - i,
    {
        let c = code_at_index(i);
        if code_color(c) == color {
            return Some(c);
        }
        i = i + 1;
    }
    None
}

/// The whole table in order, each code's text with its colour.
pub fn generate_xterm_color_map() -> (r: Vec<(String, Rgb)>)
    ensures
        r@.len() == TABLE_LEN,
        forall|i: int| 0 <= i < TABLE_LEN ==> {
            &&& (#[trigger] r@[i]).0@ == latin1_text(code_bytes(code_at(i)))
            &&& r@[i].1 == code_rgb(code_at(i))
        },
{
    let mut r: Vec<(String, Rgb)> = Vec::new();
    let mut i: usize = 0;
    while i < TABLE_LEN
        invariant
            0 <= i <= TABLE_LEN,
            r@.len() == i,
            forall|j: int| 0 <= j < i ==> {
                &&& (#[trigger] r@[j]).0@ == latin1_text(code_bytes(code_at(j)))
                &&& r@[j].1 == code_rgb(code_at(j))
            },
        decreases TABLE_LEN - i,
    {
        let c = code_at_index(i);
        r.push((code_name(c), code_color(c)));
        i = i + 1;
    }
    r
}

proof fn lemma_first_match_found(color: Rgb, i: int)
    requires
        first_match(color, i) is Some,
    ensures
        first_match(color, i).unwrap().wf(),
        code_rgb(first_match(color, i).unwrap()) == color,
    decreases TABLE_LEN - i,
{
    if 0 <= i < TABLE_LEN && code_rgb(code_at(i)) != color {
        lemma_first_match_found(color, i + 1);
    }
}

/// A colour that has a name in the table resolves back to itself from that
/// name: reverse lookup and lookup agree.
pub proof fn lemma_name_round_trip(color: Rgb)
    requires
        first_match(color, 0) is Some,
    ensures
        lookup_spec(code_bytes(first_match(color, 0).unwrap())) == color,
{
    lemma_first_match_found(color, 0);
    lemma_code_round_trip(first_match(color, 0).unwrap());
}

} // verus!
