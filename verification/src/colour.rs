use vstd::prelude::*;

verus! {

/// A colour as three 8-bit channels.
#[derive(Clone, Copy, Debug, PartialEq, Eq, Structural)]
pub struct Rgb {
    pub red: u8,
    pub green: u8,
    pub blue: u8,
}

/// Value of a sequence of ASCII decimal digits.
pub open spec fn digits_value(s: Seq<u8>) -> nat
    decreases s.len(),
{
    if s.len() == 0 {
        0
    } else {
        digits_value(s.drop_last()) * 10 + (s.last() - 48) as nat
    }
}

pub open spec fn is_digit(b: u8) -> bool {
    48 <= b <= 57
}

pub open spec fn all_digits(s: Seq<u8>) -> bool {
    forall|i: int| 0 <= i < s.len() ==> is_digit(#[trigger] s[i])
}

/// The digits that `u8::from_str` reads: an optional leading `+` is dropped.
pub open spec fn unsigned_digits(s: Seq<u8>) -> Seq<u8> {
    if s.len() > 0 && s[0] == 43 {
        s.drop_first()
    } else {
        s
    }
}

/// What parsing `s` as a decimal `u8` gives: `None` for an empty digit
/// string, any byte that is not a digit, or a value above 255.
pub open spec fn parse_u8_spec(s: Seq<u8>) -> Option<u8> {
    let d = unsigned_digits(s);
    if d.len() > 0 && all_digits(d) && digits_value(d) <= 255 {
        Some(digits_value(d) as u8)
    } else {
        None
    }
}

pub(crate) proof fn lemma_digits_value_take(s: Seq<u8>, i: int)
    requires
        0 <= i < s.len(),
    ensures
        digits_value(s.take(i + 1)) == digits_value(s.take(i)) * 10 + (s[i] - 48) as nat,
{
    assert(s.take(i + 1).drop_last() =~= s.take(i));
}

pub(crate) proof fn lemma_digits_value_monotone(s: Seq<u8>, i: int, j: int)
    requires
        0 <= i <= j <= s.len(),
        all_digits(s),
    ensures
        digits_value(s.take(i)) <= digits_value(s.take(j)),
    decreases j - i,
{
    if i < j {
        lemma_digits_value_monotone(s, i, j - 1);
        lemma_digits_value_take(s, j - 1);
    }
}

/// Parses `s` as a decimal `u8` in the way `str::parse::<u8>` does.
pub fn parse_u8(s: &[u8]) -> (res: Option<u8>)
    ensures
        res == parse_u8_spec(s@),
{
    let start: usize = if s.len() > 0 && s[0] == 43 { 1 } else { 0 };
    let ghost d = unsigned_digits(s@);
    assert(d =~= s@.subrange(start as int, s@.len() as int));
    if start >= s.len() {
        return None;
    }
    let mut acc: u32 = 0;
    let mut i: usize = start;
    while i < s.len()
        invariant
            start <= i <= s.len(),
            d == unsigned_digits(s@),
            d =~= s@.subrange(start as int, s@.len() as int),
            all_digits(d.take(i - start)),
            acc as nat == digits_value(d.take(i - start)),
            acc <= 255,
        decreases s.len() - i,
    {
        let b = s[i];
        if b < 48 || b > 57 {
            assert(d[i - start] == b);
            assert(!is_digit(d[i - start]));
            assert(!all_digits(d));
            return None;
        }
        proof {
            lemma_digits_value_take(d, i - start);
            assert(d.take(i - start + 1).drop_last() =~= d.take(i - start));
        }
        acc = acc * 10 + (b - 48) as u32;
        if acc > 255 {
            proof {
                let k = (i - start + 1) as int;
                if all_digits(d) {
                    lemma_digits_value_monotone(d, k, d.len() as int);
                    assert(d.take(d.len() as int) =~= d);
                    assert(digits_value(d) > 255);
                }
                assert(parse_u8_spec(s@).is_none());
            }
            return None;
        }
        i = i + 1;
        proof {
            assert forall|m: int| 0 <= m < i - start implies is_digit(#[trigger] d.take(i - start)[m]) by {
                if m < i - 1 - start {
                    assert(d.take(i - start)[m] == d.take(i - 1 - start)[m]);
                }
            }
        }
    }
    assert(d.take(i - start) =~= d);
    Some(acc as u8)
}


/// The outcome of reading a colour line typed by the user.
#[derive(Clone, Copy, Debug, PartialEq, Eq, Structural)]
pub enum ColourEntry {
    /// The line names a colour.
    Colour(Rgb),
    /// The line is neither a one-letter shorthand nor a nine-digit code.
    WrongLength,
    /// The line has the length of a nine-digit code but a group is not a `u8`.
    Unreadable,
}

/// True when `line` is one of the given letters followed by a newline.
pub open spec fn is_letter_line(line: Seq<u8>, letters: Seq<u8>) -> bool {
    line.len() == 2 && line[1] == 10 && letters.contains(line[0])
}

pub open spec fn full_or_none(on: bool) -> u8 {
    if on { 255 } else { 0 }
}

/// The colour of a two-byte shorthand line: `r`, `g`, `b`, `p` (purple),
/// `c` (cyan), `y` (yellow), `w` (white), each followed by a newline, switch
/// their channels fully on; any other two bytes (`k` among them) give black.
pub open spec fn shorthand_spec(line: Seq<u8>) -> Rgb {
    Rgb {
        red: full_or_none(is_letter_line(line, seq![114u8, 112u8, 121u8, 119u8])),
        green: full_or_none(is_letter_line(line, seq![103u8, 121u8, 99u8, 119u8])),
        blue: full_or_none(is_letter_line(line, seq![98u8, 112u8, 99u8, 119u8])),
    }
}

/// `s` with every newline byte removed.
pub open spec fn without_newlines(s: Seq<u8>) -> Seq<u8>
    decreases s.len(),
{
    if s.len() == 0 {
        s
    } else if s.last() == 10 {
        without_newlines(s.drop_last())
    } else {
        without_newlines(s.drop_last()).push(s.last())
    }
}

/// What a colour line (as read from the terminal, newline included) means:
/// two bytes are a shorthand, ten bytes are `rrrgggbbb` and a newline (the
/// last group read with its newlines removed), any other length is refused.
pub open spec fn colour_entry_spec(line: Seq<u8>) -> ColourEntry {
    if line.len() == 2 {
        ColourEntry::Colour(shorthand_spec(line))
    } else if line.len() == 10 {
        match (
            parse_u8_spec(line.subrange(0, 3)),
            parse_u8_spec(line.subrange(3, 6)),
            parse_u8_spec(without_newlines(line.subrange(6, 10))),
        ) {
            (Some(r), Some(g), Some(b)) => ColourEntry::Colour(Rgb { red: r, green: g, blue: b }),
            _ => ColourEntry::Unreadable,
        }
    } else {
        ColourEntry::WrongLength
    }
}

fn is_one_of(b: u8, l0: u8, l1: u8, l2: u8, l3: u8) -> (res: bool)
    ensures
        res == seq![l0, l1, l2, l3].contains(b),
{
    let res = b == l0 || b == l1 || b == l2 || b == l3;
    proof {
        let s = seq![l0, l1, l2, l3];
        if res {
            if b == l0 { assert(s[0] == b); }
            else if b == l1 { assert(s[1] == b); }
            else if b == l2 { assert(s[2] == b); }
            else { assert(s[3] == b); }
        }
    }
    res
}

/// The bytes of `s` from `from` up to `to`.
pub(crate) fn copy_range(s: &[u8], from: usize, to: usize) -> (res: Vec<u8>)
    requires
        from <= to <= s.len(),
    ensures
        res@ == s@.subrange(from as int, to as int),
{
    let mut res: Vec<u8> = Vec::new();
    let mut i = from;
    while i < to
        invariant
            from <= i <= to <= s.len(),
            res@ == s@.subrange(from as int, i as int),
        decreases to - i,
    {
        res.push(s[i]);
        i = i + 1;
        assert(res@ =~= s@.subrange(from as int, i as int));
    }
    res
}

/// `s` with its newline bytes removed.
pub fn strip_newlines(s: &[u8]) -> (res: Vec<u8>)
    ensures
        res@ == without_newlines(s@),
{
    let mut res: Vec<u8> = Vec::new();
    let mut i: usize = 0;
    while i < s.len()
        invariant
            i <= s.len(),
            res@ == without_newlines(s@.take(i as int)),
        decreases s.len() - i,
    {
        assert(s@.take(i + 1).drop_last() =~= s@.take(i as int));
        if s[i] != 10 {
            res.push(s[i]);
        }
        i = i + 1;
    }
    assert(s@.take(s.len() as int) =~= s@);
    res
}

/// Reads a colour line typed by the user (trailing newline included).
pub fn read_colour_entry(line: &[u8]) -> (res: ColourEntry)
    requires
        line@.len() >= 1,
    ensures
        res == colour_entry_spec(line@),
{
    if line.len() == 2 {
        let code = if line[1] == 10 { line[0] } else { 0 };
        let letter_line = line[1] == 10;
        let red = letter_line && is_one_of(code, 114, 112, 121, 119);
        let green = letter_line && is_one_of(code, 103, 121, 99, 119);
        let blue = letter_line && is_one_of(code, 98, 112, 99, 119);
        ColourEntry::Colour(Rgb {
            red: if red { 255 } else { 0 },
            green: if green { 255 } else { 0 },
            blue: if blue { 255 } else { 0 },
        })
    } else if line.len() == 10 {
        let r_digits = copy_range(line, 0, 3);
        let g_digits = copy_range(line, 3, 6);
        let b_group = copy_range(line, 6, 10);
        let b_digits = strip_newlines(b_group.as_slice());
        match (parse_u8(r_digits.as_slice()), parse_u8(g_digits.as_slice()), parse_u8(b_digits.as_slice())) {
            (Some(r), Some(g), Some(b)) => ColourEntry::Colour(Rgb { red: r, green: g, blue: b }),
            _ => ColourEntry::Unreadable,
        }
    } else {
        ColourEntry::WrongLength
    }
}


/// The colour whose channels are 255 minus those of `c`.
pub open spec fn inverse_spec(c: Rgb) -> Rgb {
    Rgb { red: (255 - c.red) as u8, green: (255 - c.green) as u8, blue: (255 - c.blue) as u8 }
}

/// The lower-case hexadecimal digit of `n < 16`.
pub open spec fn hex_digit(n: nat) -> u8 {
    if n < 10 { (48 + n) as u8 } else { (87 + n) as u8 }
}

/// `v` as two lower-case hexadecimal digits, as `{:02x}` writes it.
pub open spec fn hex_pair(v: u8) -> Seq<u8> {
    seq![hex_digit((v / 16) as nat), hex_digit((v % 16) as nat)]
}

/// The six hex digits `rrggbb` of the terminal cursor colour shown over a
/// pixel of colour `c`: the inverse of `c`, so that the cursor stays visible.
pub open spec fn cursor_code_spec(c: Rgb) -> Seq<u8> {
    let inv = inverse_spec(c);
    hex_pair(inv.red) + hex_pair(inv.green) + hex_pair(inv.blue)
}

/// The inverse of a colour: each channel becomes 255 minus itself.
pub fn inverse(c: Rgb) -> (res: Rgb)
    ensures
        res == inverse_spec(c),
{
    Rgb { red: 255 - c.red, green: 255 - c.green, blue: 255 - c.blue }
}

fn push_hex_pair(out: &mut Vec<u8>, v: u8)
    ensures
        final(out)@ == old(out)@ + hex_pair(v),
{
    let hi = v / 16;
    let lo = v % 16;
    out.push(if hi < 10 { 48 + hi } else { 87 + hi });
    out.push(if lo < 10 { 48 + lo } else { 87 + lo });
    assert(final(out)@ =~= old(out)@ + hex_pair(v));
}

/// A lower-case hexadecimal digit: `0`-`9` or `a`-`f`.
pub open spec fn is_lower_hex(b: u8) -> bool {
    (48 <= b <= 57) || (97 <= b <= 102)
}

/// The value of a hexadecimal digit.
pub open spec fn hex_value(b: u8) -> int {
    if 48 <= b <= 57 { b - 48 } else { b - 87 }
}

/// The value of the two hexadecimal digits of `s` from `i`.
pub open spec fn hex_pair_value(s: Seq<u8>, i: int) -> int {
    16 * hex_value(s[i]) + hex_value(s[i + 1])
}

/// The cursor colour code is six lower-case hexadecimal digits, and its
/// pairs read in base 16 are 255 minus the red, green and blue channels.
pub proof fn law_cursor_code_is_inverse_hex(c: Rgb)
    ensures
        cursor_code_spec(c).len() == 6,
        forall|i: int| 0 <= i < 6 ==> is_lower_hex(#[trigger] cursor_code_spec(c)[i]),
        hex_pair_value(cursor_code_spec(c), 0) == 255 - c.red,
        hex_pair_value(cursor_code_spec(c), 2) == 255 - c.green,
        hex_pair_value(cursor_code_spec(c), 4) == 255 - c.blue,
{
    let s = cursor_code_spec(c);
    let inv = inverse_spec(c);
    assert(s == hex_pair(inv.red) + hex_pair(inv.green) + hex_pair(inv.blue));
    assert(s[0] == hex_pair(inv.red)[0] && s[1] == hex_pair(inv.red)[1]);
    assert(s[2] == hex_pair(inv.green)[0] && s[3] == hex_pair(inv.green)[1]);
    assert(s[4] == hex_pair(inv.blue)[0] && s[5] == hex_pair(inv.blue)[1]);
    lemma_hex_pair(inv.red);
    lemma_hex_pair(inv.green);
    lemma_hex_pair(inv.blue);
}

proof fn lemma_hex_pair(v: u8)
    ensures
        is_lower_hex(hex_pair(v)[0]),
        is_lower_hex(hex_pair(v)[1]),
        16 * hex_value(hex_pair(v)[0]) + hex_value(hex_pair(v)[1]) == v,
{
    assert(v / 16 < 16 && v % 16 < 16);
    assert(16 * (v / 16) + v % 16 == v);
}

/// The cursor colour code (`rrggbb`, lower-case hex) for a pixel of colour `c`.
pub fn cursor_colour_code(c: Rgb) -> (res: Vec<u8>)
    ensures
        res@ == cursor_code_spec(c),
{
    let inv = inverse(c);
    let mut res: Vec<u8> = Vec::new();
    push_hex_pair(&mut res, inv.red);
    push_hex_pair(&mut res, inv.green);
    push_hex_pair(&mut res, inv.blue);
    assert(res@ =~= cursor_code_spec(c));
    res
}

/// `v` in decimal without leading zeros, as `{}` writes it.
pub open spec fn decimal(v: nat) -> Seq<u8>
    decreases v,
{
    if v < 10 {
        seq![(48 + v) as u8]
    } else {
        decimal(v / 10).push((48 + v % 10) as u8)
    }
}

/// Appends `v` in decimal to `out`.
pub fn push_decimal(out: &mut Vec<u8>, v: u8)
    ensures
        final(out)@ == old(out)@ + decimal(v as nat),
{
    if v >= 100 {
        out.push(48 + v / 100);
        out.push(48 + (v / 10) % 10);
        out.push(48 + v % 10);
        assert(decimal((v / 10) as nat) == decimal((v / 100) as nat).push((48 + (v / 10) % 10) as u8));
        assert(decimal((v / 100) as nat) =~= seq![(48 + v / 100) as u8]);
    } else if v >= 10 {
        out.push(48 + v / 10);
        out.push(48 + v % 10);
        assert(decimal((v / 10) as nat) =~= seq![(48 + v / 10) as u8]);
    } else {
        out.push(48 + v);
    }
    assert(final(out)@ =~= old(out)@ + decimal(v as nat));
}


/// `v` as three decimal digits, zeros in front.
pub open spec fn three_digits(v: u8) -> Seq<u8> {
    seq![(48 + v / 100) as u8, (48 + (v / 10) % 10) as u8, (48 + v % 10) as u8]
}

/// The nine-digit code of a colour, as typed at the colour prompt.
pub open spec fn colour_code_line(c: Rgb) -> Seq<u8> {
    three_digits(c.red) + three_digits(c.green) + three_digits(c.blue) + seq![10u8]
}

pub(crate) proof fn lemma_three_digits(v: u8)
    ensures
        parse_u8_spec(three_digits(v)) == Some(v),
        all_digits(three_digits(v)),
        digits_value(three_digits(v)) == v as nat,
{
    let d = three_digits(v);
    assert(unsigned_digits(d) == d);
    assert(all_digits(d));
    let d1 = d.drop_last().drop_last();
    assert(d1 =~= seq![(48 + v / 100) as u8]);
    assert(d1.drop_last() =~= Seq::<u8>::empty());
    assert(digits_value(d1.drop_last()) == 0);
    assert(d1.last() == (48 + v / 100) as u8);
    assert(digits_value(d1) == (v / 100) as nat);
    assert(digits_value(d.drop_last()) == (v / 100) as nat * 10 + ((v / 10) % 10) as nat);
    assert(digits_value(d) == v as nat);
}

/// Every colour reads back from its nine-digit code.
pub proof fn law_colour_code_round_trip(c: Rgb)
    ensures
        colour_entry_spec(colour_code_line(c)) == ColourEntry::Colour(c),
{
    let line = colour_code_line(c);
    assert(line.subrange(0, 3) =~= three_digits(c.red));
    assert(line.subrange(3, 6) =~= three_digits(c.green));
    let b = line.subrange(6, 10);
    assert(b =~= three_digits(c.blue).push(10u8));
    assert(b.drop_last() =~= three_digits(c.blue));
    let t = three_digits(c.blue);
    let t1 = t.drop_last().drop_last();
    assert(t1 =~= seq![(48 + c.blue / 100) as u8]);
    assert(t1.drop_last() =~= Seq::<u8>::empty());
    assert(without_newlines(t1.drop_last()) =~= Seq::<u8>::empty());
    assert(t1.last() != 10u8);
    assert(without_newlines(t1) =~= t1);
    assert(without_newlines(t.drop_last().drop_last()) =~= t.drop_last().drop_last());
    assert(without_newlines(t.drop_last()) =~= t.drop_last());
    assert(without_newlines(t) =~= t);
    lemma_three_digits(c.red);
    lemma_three_digits(c.green);
    lemma_three_digits(c.blue);
}

} // verus!
