//! Character-level helpers shared by the assembler and the disassembler:
//! classifying and converting digits, parsing fixed-radix numerals,
//! splitting source text, trimming, and rendering hexadecimal/decimal text.
use vstd::prelude::*;
use vstd::string::StrSliceExecFns;
use vstd::string::StringExecFns;

verus! {

// ---------------------------------------------------------------------------
// Character classes and digit values
// ---------------------------------------------------------------------------
/// The whitespace characters recognised when the whole input is trimmed.
pub open spec fn is_space_char(c: char) -> bool {
    c == ' ' || c == '\t' || c == '\n' || c == '\r'
}

/// The numeric value of `c` as a digit, accepting both letter cases for
/// hexadecimal; any non-digit maps to 16, which no supported radix admits.
pub open spec fn char_digit(c: char) -> nat {
    let v = c as int;
    if '0' as int <= v && v <= '9' as int {
        (v - '0' as int) as nat
    } else if 'a' as int <= v && v <= 'f' as int {
        (v - 'a' as int + 10) as nat
    } else if 'A' as int <= v && v <= 'F' as int {
        (v - 'A' as int + 10) as nat
    } else {
        16
    }
}

/// `s` is non-empty and consists only of digits valid under `radix`.
pub open spec fn all_digits(s: Seq<char>, radix: nat) -> bool {
    s.len() > 0 && forall|i: int| 0 <= i < s.len() ==> char_digit(s[i]) < radix
}

/// The value of the digit string `s` read most-significant first.
pub open spec fn digits_value(s: Seq<char>, radix: nat) -> nat
    decreases s.len(),
{
    if s.len() == 0 {
        0
    } else {
        digits_value(s.drop_last(), radix) * radix + char_digit(s.last())
    }
}

pub fn is_space(c: char) -> (b: bool)
    ensures
        b == is_space_char(c),
{
    c == ' ' || c == '\t' || c == '\n' || c == '\r'
}

pub fn digit_of(c: char, radix: u16) -> (d: Option<u16>)
    ensures
        match d {
            Some(v) => char_digit(c) < radix as nat && v as nat == char_digit(c),
            None => char_digit(c) >= radix as nat,
        },
{
    let v: u32 = c as u32;
    let raw: u32 = if v >= '0' as u32 && v <= '9' as u32 {
        v - '0' as u32
    } else if v >= 'a' as u32 && v <= 'f' as u32 {
        v - 'a' as u32 + 10
    } else if v >= 'A' as u32 && v <= 'F' as u32 {
        v - 'A' as u32 + 10
    } else {
        16
    };
    if raw < radix as u32 {
        Some(raw as u16)
    } else {
        None
    }
}

/// Extending a digit string never decreases its value.
proof fn lemma_digits_value_grows(s: Seq<char>, radix: nat, i: int)
    requires
        1 <= radix,
        0 <= i <= s.len(),
    ensures
        digits_value(s, radix) >= digits_value(s.take(i), radix),
    decreases s.len() - i,
{
    if i < s.len() {
        assert(s.take(i + 1).drop_last() =~= s.take(i));
        assert(s.take(i + 1).last() == s[i]);
        let a = digits_value(s.take(i), radix);
        assert(a * radix >= a) by (nonlinear_arith)
            requires radix >= 1, a >= 0,
        ;
        lemma_digits_value_grows(s, radix, i + 1);
    } else {
        assert(s.take(i) =~= s);
    }
}

/// Parse `s` as an unsigned numeral under `radix`.
/// Returns the value exactly when every character is a valid digit and the
/// value fits in 16 bits.
pub fn parse_radix(s: &str, radix: u16) -> (r: Option<u16>)
    requires
        radix == 2 || radix == 10 || radix == 16,
    ensures
        match r {
            Some(v) => all_digits(s@, radix as nat) && v as nat == digits_value(
                s@,
                radix as nat,
            ),
            None => !all_digits(s@, radix as nat) || digits_value(s@, radix as nat) > 0xFFFF,
        },
{
    let n: usize = s.unicode_len();
    if n == 0 {
        return None;
    }
    let mut acc: u32 = 0;
    let mut i: usize = 0;
    while i < n
        invariant
            i <= n,
            n == s@.len(),
            radix == 2 || radix == 10 || radix == 16,
            acc <= 0xFFFF,
            acc as nat == digits_value(s@.take(i as int), radix as nat),
            forall|j: int| 0 <= j < i ==> char_digit(s@[j]) < radix as nat,
        decreases n - i,
    {
        let c = s.get_char(i);
        match digit_of(c, radix) {
            None => {
                return None;
            },
            Some(d) => {
                proof {
                    assert(acc as nat * radix as nat <= 0xFFFF * 16) by (nonlinear_arith)
                        requires acc <= 0xFFFF, radix <= 16,
                    ;
                }
                let next: u32 = acc * (radix as u32) + (d as u32);
                proof {
                    assert(s@.take(i + 1).drop_last() =~= s@.take(i as int));
                    assert(s@.take(i + 1).last() == s@[i as int]);
                }
                if next > 0xFFFF {
                    proof {
                        lemma_digits_value_grows(s@, radix as nat, i + 1);
                    }
                    return None;
                }
                acc = next;
                i += 1;
            },
        }
    }
    proof {
        assert(s@.take(n as int) =~= s@);
    }
    Some(acc as u16)
}

// ---------------------------------------------------------------------------
// Little-endian byte order
// ---------------------------------------------------------------------------
/// A 16-bit value as its two little-endian bytes.
pub open spec fn le_bytes(v: u16) -> Seq<u8> {
    seq![(v as nat % 256) as u8, (v as nat / 256) as u8]
}

/// The 16-bit value read from two little-endian bytes.
pub open spec fn u16_of(lo: u8, hi: u8) -> u16 {
    (lo as nat + hi as nat * 256) as u16
}

pub fn u16_to_le(v: u16) -> (r: Vec<u8>)
    ensures
        r@ == le_bytes(v),
{
    let mut r: Vec<u8> = Vec::new();
    r.push((v % 256) as u8);
    r.push((v / 256) as u8);
    proof {
        assert(r@ =~= le_bytes(v));
    }
    r
}

pub fn u16_from_le(lo: u8, hi: u8) -> (v: u16)
    ensures
        v == u16_of(lo, hi),
{
    lo as u16 + hi as u16 * 256
}

// ---------------------------------------------------------------------------
// Hexadecimal and decimal rendering
// ---------------------------------------------------------------------------
/// The uppercase hexadecimal digit for a value below 16.
pub open spec fn hex_char(n: nat) -> char {
    if n == 0 { '0' }
    else if n == 1 { '1' }
    else if n == 2 { '2' }
    else if n == 3 { '3' }
    else if n == 4 { '4' }
    else if n == 5 { '5' }
    else if n == 6 { '6' }
    else if n == 7 { '7' }
    else if n == 8 { '8' }
    else if n == 9 { '9' }
    else if n == 10 { 'A' }
    else if n == 11 { 'B' }
    else if n == 12 { 'C' }
    else if n == 13 { 'D' }
    else if n == 14 { 'E' }
    else { 'F' }
}

/// A byte as two uppercase hexadecimal characters.
pub open spec fn hex2(v: u8) -> Seq<char> {
    seq![hex_char(v as nat / 16), hex_char(v as nat % 16)]
}

/// A 16-bit value as four uppercase hexadecimal characters.
pub open spec fn hex4(v: u16) -> Seq<char> {
    seq![
        hex_char(v as nat / 4096 % 16),
        hex_char(v as nat / 256 % 16),
        hex_char(v as nat / 16 % 16),
        hex_char(v as nat % 16),
    ]
}

fn hex_digit_piece(n: u16) -> (r: &'static str)
    requires
        n < 16,
    ensures
        r@ == seq![hex_char(n as nat)],
{
    proof {
        reveal_strlit("0");
        reveal_strlit("1");
        reveal_strlit("2");
        reveal_strlit("3");
        reveal_strlit("4");
        reveal_strlit("5");
        reveal_strlit("6");
        reveal_strlit("7");
        reveal_strlit("8");
        reveal_strlit("9");
        reveal_strlit("A");
        reveal_strlit("B");
        reveal_strlit("C");
        reveal_strlit("D");
        reveal_strlit("E");
        reveal_strlit("F");
    }
    let r: &'static str = if n == 0 { "0" }
    else if n == 1 { "1" }
    else if n == 2 { "2" }
    else if n == 3 { "3" }
    else if n == 4 { "4" }
    else if n == 5 { "5" }
    else if n == 6 { "6" }
    else if n == 7 { "7" }
    else if n == 8 { "8" }
    else if n == 9 { "9" }
    else if n == 10 { "A" }
    else if n == 11 { "B" }
    else if n == 12 { "C" }
    else if n == 13 { "D" }
    else if n == 14 { "E" }
    else { "F" };
    proof {
        assert(r@ =~= seq![hex_char(n as nat)]);
    }
    r
}

pub fn push_hex2(s: &mut String, v: u8)
    ensures
        final(s)@ == old(s)@ + hex2(v),
{
    s.append(hex_digit_piece(v as u16 / 16));
    s.append(hex_digit_piece(v as u16 % 16));
    proof {
        assert(final(s)@ =~= old(s)@ + hex2(v));
    }
}

pub fn push_hex4(s: &mut String, v: u16)
    ensures
        final(s)@ == old(s)@ + hex4(v),
{
    s.append(hex_digit_piece(v / 4096 % 16));
    s.append(hex_digit_piece(v / 256 % 16));
    s.append(hex_digit_piece(v / 16 % 16));
    s.append(hex_digit_piece(v % 16));
    proof {
        assert(final(s)@ =~= old(s)@ + hex4(v));
    }
}

/// A natural number written in decimal, most-significant digit first.
pub open spec fn dec_digits(n: nat) -> Seq<char>
    decreases n,
{
    if n < 10 {
        seq![hex_char(n)]
    } else {
        dec_digits(n / 10) + seq![hex_char(n % 10)]
    }
}

pub fn dec_string(n: usize) -> (r: String)
    ensures
        r@ == dec_digits(n as nat),
    decreases n,
{
    if n < 10 {
        String::from_str(hex_digit_piece(n as u16))
    } else {
        let mut s = dec_string(n / 10);
        s.append(hex_digit_piece((n % 10) as u16));
        s
    }
}

// ---------------------------------------------------------------------------
// Single renderable characters
// ---------------------------------------------------------------------------
/// The characters the renderer may emit one at a time: the uppercase
/// alphabet for mnemonics and the punctuation of operand syntax.
pub open spec fn piece_char(c: char) -> bool {
    c == '$' || c == '#' || c == '(' || c == ')' || c == ',' || c == '\t' || c == ' '
        || ('A' as int <= c as int && c as int <= 'Z' as int)
}

pub fn char_piece(c: char) -> (r: &'static str)
    requires
        piece_char(c),
    ensures
        r@ == seq![c],
{
    proof {
        reveal_strlit("$");
        reveal_strlit("#");
        reveal_strlit("(");
        reveal_strlit(")");
        reveal_strlit(",");
        reveal_strlit("\t");
        reveal_strlit(" ");
        reveal_strlit("A");
        reveal_strlit("B");
        reveal_strlit("C");
        reveal_strlit("D");
        reveal_strlit("E");
        reveal_strlit("F");
        reveal_strlit("G");
        reveal_strlit("H");
        reveal_strlit("I");
        reveal_strlit("J");
        reveal_strlit("K");
        reveal_strlit("L");
        reveal_strlit("M");
        reveal_strlit("N");
        reveal_strlit("O");
        reveal_strlit("P");
        reveal_strlit("Q");
        reveal_strlit("R");
        reveal_strlit("S");
        reveal_strlit("T");
        reveal_strlit("U");
        reveal_strlit("V");
        reveal_strlit("W");
        reveal_strlit("X");
        reveal_strlit("Y");
        reveal_strlit("Z");
    }
    let r: &'static str = if c == '$' { "$" }
    else if c == '#' { "#" }
    else if c == '(' { "(" }
    else if c == ')' { ")" }
    else if c == ',' { "," }
    else if c == '\t' { "\t" }
    else if c == ' ' { " " }
    else if c == 'A' { "A" }
    else if c == 'B' { "B" }
    else if c == 'C' { "C" }
    else if c == 'D' { "D" }
    else if c == 'E' { "E" }
    else if c == 'F' { "F" }
    else if c == 'G' { "G" }
    else if c == 'H' { "H" }
    else if c == 'I' { "I" }
    else if c == 'J' { "J" }
    else if c == 'K' { "K" }
    else if c == 'L' { "L" }
    else if c == 'M' { "M" }
    else if c == 'N' { "N" }
    else if c == 'O' { "O" }
    else if c == 'P' { "P" }
    else if c == 'Q' { "Q" }
    else if c == 'R' { "R" }
    else if c == 'S' { "S" }
    else if c == 'T' { "T" }
    else if c == 'U' { "U" }
    else if c == 'V' { "V" }
    else if c == 'W' { "W" }
    else if c == 'X' { "X" }
    else if c == 'Y' { "Y" }
    else { "Z" };
    proof {
        assert(r@ =~= seq![c]);
    }
    r
}

pub fn push_piece(s: &mut String, c: char)
    requires
        piece_char(c),
    ensures
        final(s)@ == old(s)@ + seq![c],
{
    s.append(char_piece(c));
}

// ---------------------------------------------------------------------------
// String equality
// ---------------------------------------------------------------------------
// ---------------------------------------------------------------------------
// Splitting on a separator character
// ---------------------------------------------------------------------------
/// `s` divided at every occurrence of `sep`; a string with `k` separators
/// yields `k + 1` (possibly empty) parts, separators not included.
pub open spec fn split_on(s: Seq<char>, sep: char) -> Seq<Seq<char>>
    decreases s.len(),
{
    if s.len() == 0 {
        seq![Seq::<char>::empty()]
    } else if s[0] == sep {
        seq![Seq::<char>::empty()] + split_on(s.drop_first(), sep)
    } else {
        let rest = split_on(s.drop_first(), sep);
        seq![seq![s[0]] + rest[0]] + rest.drop_first()
    }
}

proof fn lemma_split_on_len(s: Seq<char>, sep: char)
    ensures
        split_on(s, sep).len() >= 1,
    decreases s.len(),
{
    if s.len() > 0 {
        lemma_split_on_len(s.drop_first(), sep);
    }
}

/// A separator-free string is a single part.
proof fn lemma_split_no_sep(s: Seq<char>, sep: char)
    requires
        forall|i: int| 0 <= i < s.len() ==> s[i] != sep,
    ensures
        split_on(s, sep) == seq![s],
    decreases s.len(),
{
    if s.len() == 0 {
        assert(split_on(s, sep) =~~= seq![s]);
    } else {
        lemma_split_no_sep(s.drop_first(), sep);
        let rest = split_on(s.drop_first(), sep);
        assert(seq![s[0]] + rest[0] =~= s);
        assert(rest.drop_last() =~~= Seq::<Seq<char>>::empty());
        assert(rest.drop_first() =~~= Seq::<Seq<char>>::empty());
        assert(split_on(s, sep) =~~= seq![s]);
    }
}

/// Splitting at the first separator peels off one part.
proof fn lemma_split_first_sep(s: Seq<char>, sep: char, k: int)
    requires
        0 <= k < s.len(),
        s[k] == sep,
        forall|j: int| 0 <= j < k ==> s[j] != sep,
    ensures
        split_on(s, sep) == seq![s.take(k)] + split_on(s.skip(k + 1), sep),
    decreases k,
{
    if k == 0 {
        assert(s.take(0) =~= Seq::<char>::empty());
        assert(s.skip(1) =~= s.drop_first());
        assert(split_on(s, sep) =~~= seq![s.take(0)] + split_on(s.skip(1), sep));
    } else {
        let t = s.drop_first();
        assert(t[k - 1] == sep);
        lemma_split_first_sep(t, sep, k - 1);
        let rest = split_on(t, sep);
        lemma_split_on_len(t.skip(k), sep);
        assert(rest == seq![t.take(k - 1)] + split_on(t.skip(k), sep));
        assert(rest[0] == t.take(k - 1));
        assert(seq![s[0]] + t.take(k - 1) =~= s.take(k));
        assert(t.skip(k) =~= s.skip(k + 1));
        assert(rest.drop_first() =~~= split_on(s.skip(k + 1), sep));
        assert(split_on(s, sep) =~~= seq![s.take(k)] + split_on(s.skip(k + 1), sep));
    }
}

/// Divide `s` at every occurrence of `sep`.
pub fn split_string(s: &str, sep: char) -> (r: Vec<String>)
    ensures
        r.deep_view() == split_on(s@, sep),
{
    let n: usize = s.unicode_len();
    let mut r: Vec<String> = Vec::new();
    let mut start: usize = 0;
    let mut j: usize = 0;
    proof {
        assert(s@.skip(0) =~= s@);
        assert(r.deep_view() =~~= Seq::<Seq<char>>::empty());
        assert(r.deep_view() + split_on(s@, sep) =~~= split_on(s@, sep));
    }
    loop
        invariant
            start <= j <= n,
            n == s@.len(),
            forall|i: int| start <= i < j ==> s@[i] != sep,
            split_on(s@, sep) == r.deep_view() + split_on(s@.skip(start as int), sep),
        decreases n - j,
    {
        if j == n {
            let t = s.substring_char(start, n);
            proof {
                assert(t@ =~= s@.skip(start as int));
                lemma_split_no_sep(s@.skip(start as int), sep);
            }
            let ghost prev = r.deep_view();
            r.push(String::from_str(t));
            proof {
                assert(r.deep_view() =~~= prev + seq![s@.skip(start as int)]);
                assert(r.deep_view() =~~= split_on(s@, sep));
            }
            return r;
        }
        let c = s.get_char(j);
        if c == sep {
            let t = s.substring_char(start, j);
            let ghost prev = r.deep_view();
            r.push(String::from_str(t));
            proof {
                let tail = s@.skip(start as int);
                lemma_split_first_sep(tail, sep, j - start);
                assert(tail.take(j - start) =~= t@);
                assert(tail.skip(j - start + 1) =~= s@.skip(j + 1));
                assert(r.deep_view() =~~= prev + seq![t@]);
                assert(split_on(s@, sep) =~~= r.deep_view() + split_on(s@.skip(j + 1), sep));
            }
            start = j + 1;
            j = j + 1;
        } else {
            j = j + 1;
        }
    }
}

/// The parts of `ts` that are non-empty.
pub open spec fn nonempty_parts(ts: Seq<Seq<char>>) -> Seq<Seq<char>> {
    ts.filter(|t: Seq<char>| t.len() > 0)
}

/// Keep only the non-empty strings of `v`.
pub fn retain_nonempty(v: Vec<String>) -> (r: Vec<String>)
    ensures
        r.deep_view() == nonempty_parts(v.deep_view()),
{
    let mut r: Vec<String> = Vec::new();
    let mut i: usize = 0;
    while i < v.len()
        invariant
            i <= v.len(),
            r.deep_view() == nonempty_parts(v.deep_view().take(i as int)),
        decreases v.len() - i,
    {
        proof {
            assert(v.deep_view().take(i + 1) =~~= v.deep_view().take(i as int).push(
                v@[i as int].deep_view(),
            ));
            v.deep_view().take(i as int).lemma_filter_push(
                v@[i as int].deep_view(),
                |t: Seq<char>| t.len() > 0,
            );
        }
        let item = &v[i];
        if item.as_str().unicode_len() > 0 {
            let ghost prev = r.deep_view();
            let copy = String::from_str(item.as_str());
            r.push(copy);
            proof {
                assert(r.deep_view() =~~= prev.push(v@[i as int].deep_view()));
                assert(r.deep_view() =~~= nonempty_parts(v.deep_view().take(i + 1)));
            }
        } else {
            proof {
                assert(r.deep_view() =~~= nonempty_parts(v.deep_view().take(i + 1)));
            }
        }
        i += 1;
    }
    proof {
        assert(v.deep_view().take(v.len() as int) =~~= v.deep_view());
    }
    r
}

// ---------------------------------------------------------------------------
// Newline normalisation and trimming
// ---------------------------------------------------------------------------
/// `s` with every CRLF pair replaced by a single LF.
pub open spec fn strip_crlf(s: Seq<char>) -> Seq<char>
    decreases s.len(),
{
    if s.len() == 0 {
        s
    } else if s.len() >= 2 && s[0] == '\r' && s[1] == '\n' {
        seq!['\n'] + strip_crlf(s.skip(2))
    } else {
        seq![s[0]] + strip_crlf(s.skip(1))
    }
}

/// Any CRLF-pair-free prefix passes through `strip_crlf` unchanged.
proof fn lemma_strip_crlf_free_prefix(s: Seq<char>, k: int)
    requires
        0 <= k <= s.len(),
        forall|j: int|
            #![trigger s[j]]
            0 <= j < k ==> !(s[j] == '\r' && j + 1 < s.len() && s[j + 1] == '\n'),
    ensures
        strip_crlf(s) == s.take(k) + strip_crlf(s.skip(k)),
    decreases k,
{
    if k == 0 {
        assert(s.take(0) =~= Seq::<char>::empty());
        assert(s.skip(0) =~= s);
        assert(strip_crlf(s) =~= s.take(0) + strip_crlf(s.skip(0)));
    } else {
        let t = s.skip(1);
        lemma_strip_crlf_free_prefix(t, k - 1);
        assert(t.take(k - 1) =~= s.take(k).skip(1));
        assert(seq![s[0]] + t.take(k - 1) =~= s.take(k));
        assert(t.skip(k - 1) =~= s.skip(k));
        assert(strip_crlf(s) =~= s.take(k) + strip_crlf(s.skip(k)));
    }
}

/// Replace every CRLF pair in `s` by a single LF.
pub fn replace_crlf(s: &str) -> (r: String)
    ensures
        r@ == strip_crlf(s@),
{
    proof {
        reveal_strlit("\n");
    }
    let n: usize = s.unicode_len();
    let mut out = String::new();
    let mut start: usize = 0;
    let mut i: usize = 0;
    proof {
        assert(s@.skip(0) =~= s@);
        assert(out@ + strip_crlf(s@) =~= strip_crlf(s@));
    }
    loop
        invariant
            start <= i <= n,
            n == s@.len(),
            forall|j: int|
                #![trigger s@[j]]
                start <= j < i ==> !(s@[j] == '\r' && j + 1 < s@.len() && s@[j + 1] == '\n'),
            strip_crlf(s@) == out@ + strip_crlf(s@.skip(start as int)),
            "\n"@ == seq!['\n'],
        decreases n - i,
    {
        if i == n {
            let t = s.substring_char(start, n);
            out.append(t);
            proof {
                let tail = s@.skip(start as int);
                lemma_strip_crlf_free_prefix(tail, tail.len() as int);
                assert(tail.take(tail.len() as int) =~= tail);
                assert(tail.skip(tail.len() as int) =~= Seq::<char>::empty());
                assert(strip_crlf(Seq::<char>::empty()) =~= Seq::<char>::empty());
                assert(t@ =~= tail);
                assert(out@ =~= strip_crlf(s@));
            }
            return out;
        }
        let c = s.get_char(i);
        if c == '\r' && i + 1 < n && s.get_char(i + 1) == '\n' {
            let t = s.substring_char(start, i);
            out.append(t);
            out.append("\n");
            proof {
                let tail = s@.skip(start as int);
                lemma_strip_crlf_free_prefix(tail, i - start);
                assert(tail.take(i - start) =~= t@);
                assert(tail.skip(i - start).len() >= 2);
                assert(tail.skip(i - start)[0] == '\r');
                assert(tail.skip(i - start)[1] == '\n');
                assert(tail.skip(i - start).skip(2) =~= s@.skip(i + 2));
                assert(strip_crlf(s@) =~= out@ + strip_crlf(s@.skip(i + 2)));
            }
            start = i + 2;
            i = i + 2;
        } else {
            i = i + 1;
        }
    }
}

/// `s` with leading whitespace removed.
pub open spec fn trim_front(s: Seq<char>) -> Seq<char>
    decreases s.len(),
{
    if s.len() > 0 && is_space_char(s[0]) {
        trim_front(s.skip(1))
    } else {
        s
    }
}

/// `s` with trailing whitespace removed.
pub open spec fn trim_back(s: Seq<char>) -> Seq<char>
    decreases s.len(),
{
    if s.len() > 0 && is_space_char(s.last()) {
        trim_back(s.drop_last())
    } else {
        s
    }
}

/// `s` with both leading and trailing whitespace removed.
pub open spec fn trimmed(s: Seq<char>) -> Seq<char> {
    trim_back(trim_front(s))
}

/// Remove leading and trailing whitespace.
pub fn trim_str(s: &str) -> (r: String)
    ensures
        r@ == trimmed(s@),
{
    let n: usize = s.unicode_len();
    let mut a: usize = 0;
    proof {
        assert(s@.skip(0) =~= s@);
    }
    while a < n && is_space(s.get_char(a))
        invariant
            a <= n,
            n == s@.len(),
            trim_front(s@) == trim_front(s@.skip(a as int)),
        decreases n - a,
    {
        proof {
            assert(s@.skip(a as int).skip(1) =~= s@.skip(a + 1));
        }
        a += 1;
    }
    proof {
        if a < n {
            assert(trim_front(s@.skip(a as int)) =~= s@.skip(a as int));
        } else {
            assert(s@.skip(a as int) =~= Seq::<char>::empty());
        }
    }
    let mut b: usize = n;
    while b > a && is_space(s.get_char(b - 1))
        invariant
            a <= b <= n,
            n == s@.len(),
            trim_front(s@) == s@.skip(a as int),
            trim_back(s@.skip(a as int)) == trim_back(s@.subrange(a as int, b as int)),
        decreases b,
    {
        proof {
            assert(s@.subrange(a as int, b as int).drop_last() =~= s@.subrange(
                a as int,
                b - 1,
            ));
        }
        b -= 1;
    }
    proof {
        if b > a {
            assert(trim_back(s@.subrange(a as int, b as int)) =~= s@.subrange(
                a as int,
                b as int,
            ));
        } else {
            assert(s@.subrange(a as int, b as int) =~= Seq::<char>::empty());
        }
    }
    let r = s.substring_char(a, b);
    proof {
        assert(r@ =~= s@.subrange(a as int, b as int));
    }
    String::from_str(r)
}

// ---------------------------------------------------------------------------
// String equality
// ---------------------------------------------------------------------------
pub fn str_equal(a: &str, b: &str) -> (r: bool)
    ensures
        r == (a@ == b@),
{
    let la: usize = a.unicode_len();
    let lb: usize = b.unicode_len();
    if la != lb {
        return false;
    }
    let mut i: usize = 0;
    while i < la
        invariant
            i <= la,
            la == a@.len(),
            la == b@.len(),
            forall|j: int| 0 <= j < i ==> a@[j] == b@[j],
        decreases la - i,
    {
        if a.get_char(i) != b.get_char(i) {
            return false;
        }
        i += 1;
    }
    proof {
        assert(a@ =~= b@);
    }
    true
}

} // verus!
