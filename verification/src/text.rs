//! Text handling: decimal rendering and parsing of display keys ("luid:tid"),
//! case-insensitive pattern matching and UTF-16 name decoding.

use vstd::prelude::*;

verus! {

/// The character of a decimal digit.
pub open spec fn digit_char(d: nat) -> char {
    (('0' as u32) + d) as char
}

pub open spec fn is_digit(c: char) -> bool {
    '0' <= c <= '9'
}

pub open spec fn digit_value(c: char) -> nat {
    ((c as u32) - ('0' as u32)) as nat
}

/// The decimal representation of `n`, without leading zeros.
pub open spec fn dec_chars(n: nat) -> Seq<char>
    decreases n,
{
    if n < 10 {
        seq![digit_char(n)]
    } else {
        dec_chars(n / 10).push(digit_char(n % 10))
    }
}

/// The value of a sequence of decimal digits.
pub open spec fn digits_value(s: Seq<char>) -> nat
    decreases s.len(),
{
    if s.len() == 0 {
        0
    } else {
        digits_value(s.drop_last()) * 10 + digit_value(s.last())
    }
}

pub open spec fn all_digits(s: Seq<char>) -> bool {
    forall|i: int| 0 <= i < s.len() ==> is_digit(#[trigger] s[i])
}

/// What `str::parse` makes of `s` for an unsigned integer type, before the range
/// check: an optional `+` followed by at least one decimal digit and nothing else.
pub open spec fn parse_nat(s: Seq<char>) -> Option<nat> {
    let digits = if s.len() > 0 && s[0] == '+' { s.drop_first() } else { s };
    if digits.len() > 0 && all_digits(digits) {
        Some(digits_value(digits))
    } else {
        None
    }
}

pub open spec fn parse_u64_spec(s: Seq<char>) -> Option<u64> {
    match parse_nat(s) {
        Some(v) => if v <= u64::MAX { Some(v as u64) } else { None },
        None => None,
    }
}

pub open spec fn parse_u32_spec(s: Seq<char>) -> Option<u32> {
    match parse_nat(s) {
        Some(v) => if v <= u32::MAX { Some(v as u32) } else { None },
        None => None,
    }
}

/// The characters of a string.
pub(crate) fn string_chars(s: &str) -> (v: Vec<char>)
    ensures
        v@ == s@,
{
    broadcast use vstd::string::axiom_spec_iter;
    let mut v: Vec<char> = Vec::new();
    for c in it: s.chars()
        invariant
            v@.len() == it.index(),
            forall|i: int| 0 <= i < v@.len() ==> v@[i] == it.seq()[i],
    {
        v.push(c);
    }
    assert(v@ =~= s@);
    v
}

/// A string made of the given characters.
#[verifier::external_body]
pub(crate) fn chars_to_string(chars: &Vec<char>) -> (s: String)
    ensures
        s@ == chars@,
{
    chars.iter().collect()
}

/// The decimal digits of `n`, as `format!("{n}")` writes them.
pub fn decimal_chars(n: u64) -> (r: Vec<char>)
    ensures
        r@ == dec_chars(n as nat),
    decreases n,
{
    let d = (n % 10) as u32;
    let c = char_of_digit(d);
    if n < 10 {
        vec![c]
    } else {
        let mut v = decimal_chars(n / 10);
        v.push(c);
        v
    }
}

fn char_of_digit(d: u32) -> (c: char)
    requires
        d < 10,
    ensures
        c == digit_char(d as nat),
{
    match d {
        0 => '0',
        1 => '1',
        2 => '2',
        3 => '3',
        4 => '4',
        5 => '5',
        6 => '6',
        7 => '7',
        8 => '8',
        _ => '9',
    }
}

/// The key under which per-display settings are stored: "adapter_luid:target_id"
/// in decimal (a string, so that JavaScript does not round the 64-bit LUID).
pub open spec fn display_key_chars(adapter_luid: u64, target_id: u32) -> Seq<char> {
    dec_chars(adapter_luid as nat) + seq![':'] + dec_chars(target_id as nat)
}

pub fn display_key_string(adapter_luid: u64, target_id: u32) -> (s: String)
    ensures
        s@ == display_key_chars(adapter_luid, target_id),
{
    let mut v = decimal_chars(adapter_luid);
    v.push(':');
    let mut t = decimal_chars(target_id as u64);
    v.append(&mut t);
    chars_to_string(&v)
}

/// Parses an unsigned decimal number as `str::parse::<u64>` does.
pub fn parse_u64(s: &[char]) -> (r: Option<u64>)
    ensures
        r == parse_u64_spec(s@),
{
    let mut start: usize = 0;
    if s.len() > 0 && s[0] == '+' {
        start = 1;
    }
    let ghost digits = if s@.len() > 0 && s@[0] == '+' { s@.drop_first() } else { s@ };
    assert(digits =~= s@.skip(start as int));
    if start >= s.len() {
        assert(digits.len() == 0);
        return None;
    }
    let mut v: u64 = 0;
    let mut big = false;
    let mut i: usize = start;
    while i < s.len()
        invariant
            start <= i <= s@.len(),
            digits == s@.skip(start as int),
            digits == (if s@.len() > 0 && s@[0] == '+' { s@.drop_first() } else { s@ }),
            all_digits(s@.subrange(start as int, i as int)),
            !big ==> v == digits_value(s@.subrange(start as int, i as int)),
            big ==> digits_value(s@.subrange(start as int, i as int)) > u64::MAX,
        decreases s@.len() - i,
    {
        let c = s[i];
        if !('0' <= c && c <= '9') {
            assert(digits[i - start] == c);
            assert(!is_digit(digits[i - start]));
            assert(!all_digits(digits));
            return None;
        }
        let d = (c as u32 - '0' as u32) as u64;
        let ghost pre = s@.subrange(start as int, i as int);
        assert(s@.subrange(start as int, i + 1).drop_last() =~= pre);
        assert(s@.subrange(start as int, i + 1).last() == c);
        if !big {
            if v > 1844674407370955161 || (v == 1844674407370955161 && d > 5) {
                big = true;
            } else {
                v = v * 10 + d;
            }
        }
        i = i + 1;
    }
    assert(s@.subrange(start as int, s@.len() as int) =~= digits);
    if big {
        None
    } else {
        Some(v)
    }
}

/// Parses an unsigned decimal number as `str::parse::<u32>` does.
pub fn parse_u32(s: &[char]) -> (r: Option<u32>)
    ensures
        r == parse_u32_spec(s@),
{
    match parse_u64(s) {
        Some(v) => if v <= 0xFFFF_FFFF { Some(v as u32) } else { None },
        None => None,
    }
}

/// The index of the first `c` in `s`, if any.
pub open spec fn first_index_of(s: Seq<char>, c: char) -> Option<int> {
    if exists|i: int| 0 <= i < s.len() && s[i] == c {
        Some(choose|i: int| 0 <= i < s.len() && s[i] == c && forall|j: int| 0 <= j < i ==> s[j] != c)
    } else {
        None
    }
}

/// What parsing a stored display key gives: the text before the first ':' as
/// a `u64` and the text after it as a `u32`.
pub open spec fn parse_display_key_spec(s: Seq<char>) -> Option<(u64, u32)> {
    match first_index_of(s, ':') {
        Some(i) => match (parse_u64_spec(s.take(i)), parse_u32_spec(s.skip(i + 1))) {
            (Some(l), Some(t)) => Some((l, t)),
            _ => None,
        },
        None => None,
    }
}

/// Parses a stored display key "adapter_luid:target_id".
pub fn parse_display_key(key: &str) -> (r: Option<(u64, u32)>)
    ensures
        r == parse_display_key_spec(key@),
{
    let chars = string_chars(key);
    let mut i: usize = 0;
    let mut found = false;
    while i < chars.len() && !found
        invariant
            0 <= i <= chars@.len(),
            chars@ == key@,
            found ==> i < chars@.len() && chars@[i as int] == ':',
            forall|j: int| 0 <= j < i ==> chars@[j] != ':',
        decreases chars@.len() - i, if found { 0int } else { 1int },
    {
        if chars[i] == ':' {
            found = true;
        } else {
            i = i + 1;
        }
    }
    if !found {
        assert(!(exists|j: int| 0 <= j < key@.len() && key@[j] == ':'));
        return None;
    }
    proof {
        assert(0 <= i < key@.len() && key@[i as int] == ':' && forall|m: int| 0 <= m < i ==> key@[m] != ':');
        let w = choose|j: int| 0 <= j < key@.len() && key@[j] == ':' && forall|m: int| 0 <= m < j ==> key@[m] != ':';
        if w < i {
        } else if w > i {
        }
        assert(w == i);
    }
    let head = slice_prefix(&chars, i);
    let tail = slice_suffix(&chars, i + 1);
    assert(head@ =~= key@.take(i as int));
    assert(tail@ =~= key@.skip(i + 1));
    match (parse_u64(head.as_slice()), parse_u32(tail.as_slice())) {
        (Some(l), Some(t)) => Some((l, t)),
        _ => None,
    }
}

fn slice_prefix(v: &Vec<char>, n: usize) -> (r: Vec<char>)
    requires
        n <= v@.len(),
    ensures
        r@ == v@.take(n as int),
{
    let mut r: Vec<char> = Vec::new();
    let mut i: usize = 0;
    while i < n
        invariant
            0 <= i <= n <= v@.len(),
            r@ == v@.take(i as int),
        decreases n - i,
    {
        r.push(v[i]);
        assert(v@.take(i + 1) =~= v@.take(i as int).push(v@[i as int]));
        i = i + 1;
    }
    r
}

fn slice_suffix(v: &Vec<char>, n: usize) -> (r: Vec<char>)
    requires
        n <= v@.len(),
    ensures
        r@ == v@.skip(n as int),
{
    let mut r: Vec<char> = Vec::new();
    let mut i: usize = n;
    while i < v.len()
        invariant
            n <= i <= v@.len(),
            r@ == v@.subrange(n as int, i as int),
        decreases v@.len() - i,
    {
        r.push(v[i]);
        assert(v@.subrange(n as int, i + 1) =~= v@.subrange(n as int, i as int).push(v@[i as int]));
        i = i + 1;
    }
    assert(v@.subrange(n as int, v@.len() as int) =~= v@.skip(n as int));
    r
}


proof fn lemma_dec_chars(n: nat)
    ensures
        dec_chars(n).len() > 0,
        all_digits(dec_chars(n)),
        digits_value(dec_chars(n)) == n,
    decreases n,
{
    let d = digit_char(n % 10);
    assert(is_digit(d) && digit_value(d) == n % 10);
    if n >= 10 {
        lemma_dec_chars(n / 10);
        let s = dec_chars(n);
        assert(s.drop_last() =~= dec_chars(n / 10));
        assert(s.last() == d);
        assert(n == (n / 10) * 10 + n % 10);
        assert(digits_value(s) == digits_value(s.drop_last()) * 10 + digit_value(s.last()));
        assert forall|i: int| 0 <= i < s.len() implies is_digit(#[trigger] s[i]) by {
            if i < s.len() - 1 {
                assert(s[i] == dec_chars(n / 10)[i]);
            }
        }
    } else {
        let s = dec_chars(n);
        assert(s.drop_last() =~= Seq::<char>::empty());
        assert(digits_value(s) == digits_value(s.drop_last()) * 10 + digit_value(s.last()));
        assert(n % 10 == n);
    }
}

/// Reading back a display key gives the adapter LUID and target id it was made from.
pub proof fn lemma_display_key_round_trip(adapter_luid: u64, target_id: u32)
    ensures
        parse_display_key_spec(display_key_chars(adapter_luid, target_id)) == Some((adapter_luid, target_id)),
{
    let a = dec_chars(adapter_luid as nat);
    let b = dec_chars(target_id as nat);
    lemma_dec_chars(adapter_luid as nat);
    lemma_dec_chars(target_id as nat);
    let s = display_key_chars(adapter_luid, target_id);
    let i = a.len() as int;
    assert(s[i] == ':');
    assert forall|m: int| 0 <= m < i implies s[m] != ':' by {
        assert(s[m] == a[m]);
        assert(is_digit(a[m]));
    }
    let w = choose|j: int| 0 <= j < s.len() && s[j] == ':' && forall|m: int| 0 <= m < j ==> s[m] != ':';
    if w > i {
    } else if w < i {
    }
    assert(w == i);
    assert(s.take(i) =~= a);
    assert(s.skip(i + 1) =~= b);
    assert(is_digit(a[0]) && is_digit(b[0]));
}


/// A UTF-16 code unit that is half of a surrogate pair.
pub open spec fn is_surrogate(u: u16) -> bool {
    0xD800 <= u <= 0xDFFF
}

/// The first (high) half of a surrogate pair.
pub open spec fn is_high_surrogate(u: u16) -> bool {
    0xD800 <= u <= 0xDBFF
}

/// The second (low) half of a surrogate pair.
pub open spec fn is_low_surrogate(u: u16) -> bool {
    0xDC00 <= u <= 0xDFFF
}

/// The character a surrogate pair encodes.
pub open spec fn surrogate_pair_char(high: u16, low: u16) -> char {
    (0x10000 + (high - 0xD800) * 0x400 + (low - 0xDC00)) as char
}

/// UTF-16 decoded as `String::from_utf16_lossy` documents it: a high surrogate
/// followed by a low one is one character; any other surrogate unit becomes
/// U+FFFD; every other unit is the character of that value.
pub open spec fn utf16_lossy(units: Seq<u16>) -> Seq<char>
    decreases units.len(),
{
    if units.len() == 0 {
        Seq::empty()
    } else if units.len() >= 2 && is_high_surrogate(units[0]) && is_low_surrogate(units[1]) {
        seq![surrogate_pair_char(units[0], units[1])] + utf16_lossy(units.skip(2))
    } else if is_surrogate(units[0]) {
        seq!['\u{FFFD}'] + utf16_lossy(units.skip(1))
    } else {
        seq![units[0] as char] + utf16_lossy(units.skip(1))
    }
}

/// `String::from_utf16_lossy`: the decoding `utf16_lossy`.
#[verifier::external_body]
fn decode_utf16_lossy(units: &[u16]) -> (s: String)
    ensures
        s@ == utf16_lossy(units@),
{
    String::from_utf16_lossy(units)
}

/// Text without surrogate units decodes unit for unit.
proof fn lemma_utf16_plain(units: Seq<u16>)
    requires
        forall|i: int| 0 <= i < units.len() ==> !is_surrogate(#[trigger] units[i]),
    ensures
        utf16_lossy(units) == units.map_values(|u: u16| u as char),
    decreases units.len(),
{
    if units.len() > 0 {
        let rest = units.skip(1);
        assert forall|i: int| 0 <= i < rest.len() implies !is_surrogate(#[trigger] rest[i]) by {
            assert(rest[i] == units[i + 1]);
        }
        lemma_utf16_plain(rest);
        assert(!is_surrogate(units[0]));
        assert(utf16_lossy(units) =~= units.map_values(|u: u16| u as char));
    }
}

/// Decoding units none of which is zero gives no NUL character.
proof fn lemma_utf16_no_nul(units: Seq<u16>)
    requires
        forall|i: int| 0 <= i < units.len() ==> #[trigger] units[i] != 0,
    ensures
        forall|k: int| 0 <= k < utf16_lossy(units).len() ==> #[trigger] utf16_lossy(units)[k] != '\0',
    decreases units.len(),
{
    if units.len() > 0 {
        let step: int = if units.len() >= 2 && is_high_surrogate(units[0]) && is_low_surrogate(units[1]) { 2 } else { 1 };
        let rest = units.skip(step);
        assert forall|i: int| 0 <= i < rest.len() implies #[trigger] rest[i] != 0 by {
            assert(rest[i] == units[i + step]);
        }
        lemma_utf16_no_nul(rest);
        let r = utf16_lossy(units);
        let first = r[0];
        assert(r == seq![first] + utf16_lossy(rest));
        if step == 2 {
            let v: int = 0x10000 + (units[0] - 0xD800) * 0x400 + (units[1] - 0xDC00);
            assert(0x10000 <= v <= 0x10FFFF);
            assert(first == v as char);
            assert((v as char) as u32 == v);
        } else if !is_surrogate(units[0]) {
            assert(first == units[0] as char);
            assert((units[0] as char) as u32 == units[0]);
        }
        assert forall|k: int| 0 <= k < r.len() implies #[trigger] r[k] != '\0' by {
            if k > 0 {
                assert(r[k] == utf16_lossy(rest)[k - 1]);
            }
        }
    }
}

/// The length of a NUL-terminated buffer: the index of the first zero, or the
/// whole buffer when it holds none.
pub open spec fn nul_terminated_len(s: Seq<u16>) -> int {
    if exists|i: int| 0 <= i < s.len() && s[i] == 0 {
        choose|i: int| 0 <= i < s.len() && s[i] == 0 && forall|j: int| 0 <= j < i ==> s[j] != 0
    } else {
        s.len() as int
    }
}

/// Reads a fixed-size, NUL-terminated UTF-16 buffer as Windows fills them in.
/// The text is the UTF-16 decoding of the units before the first zero (all of
/// them when there is none); it holds no NUL character, and text without
/// surrogate units decodes unit for unit.
pub fn wide_array_to_string(wide: &[u16]) -> (s: String)
    ensures
        s@ == utf16_lossy(wide@.take(nul_terminated_len(wide@))),
        forall|k: int| 0 <= k < s@.len() ==> #[trigger] s@[k] != '\0',
        (forall|i: int| 0 <= i < nul_terminated_len(wide@) ==> !is_surrogate(#[trigger] wide@[i])) ==> s@
            == wide@.take(nul_terminated_len(wide@)).map_values(|u: u16| u as char),
{
    let mut units: Vec<u16> = Vec::new();
    let mut i: usize = 0;
    while i < wide.len() && wide[i] != 0
        invariant
            0 <= i <= wide@.len(),
            units@ == wide@.take(i as int),
            forall|j: int| 0 <= j < i ==> wide@[j] != 0,
        decreases wide@.len() - i,
    {
        units.push(wide[i]);
        assert(wide@.take(i + 1) =~= wide@.take(i as int).push(wide@[i as int]));
        i = i + 1;
    }
    proof {
        if i < wide@.len() {
            assert(wide@[i as int] == 0);
            let w = choose|k: int| 0 <= k < wide@.len() && wide@[k] == 0 && forall|j: int| 0 <= j < k ==> wide@[j] != 0;
            if w < i {
            } else if w > i {
            }
            assert(nul_terminated_len(wide@) == i);
        } else {
            assert(wide@.take(i as int) =~= wide@);
        }
    }
    proof {
        let pre = wide@.take(i as int);
        assert forall|j: int| 0 <= j < pre.len() implies #[trigger] pre[j] != 0 by {
            assert(pre[j] == wide@[j]);
        }
        lemma_utf16_no_nul(pre);
        if forall|j: int| 0 <= j < nul_terminated_len(wide@) ==> !is_surrogate(#[trigger] wide@[j]) {
            assert forall|j: int| 0 <= j < pre.len() implies !is_surrogate(#[trigger] pre[j]) by {
                assert(pre[j] == wide@[j]);
            }
            lemma_utf16_plain(pre);
        }
    }
    decode_utf16_lossy(units.as_slice())
}

/// The lowercase form of a text as `str::to_lowercase` computes it (Unicode's
/// Lowercase mapping).
pub uninterp spec fn unicode_lowercase(s: Seq<char>) -> Seq<char>;

/// The lowercase form of an ASCII character.
pub open spec fn ascii_lower_char(c: char) -> char {
    if 'A' <= c <= 'Z' { ((c as u32) + 32) as char } else { c }
}

/// `str::to_lowercase`. It is stated that the result is the mapping named
/// `unicode_lowercase` of the argument, and that an ASCII text is lowercased
/// character by character; the Unicode tables beyond ASCII are not stated.
#[verifier::external_body]
pub(crate) fn to_lowercase(s: &str) -> (r: String)
    ensures
        r@ == unicode_lowercase(s@),
        (forall|i: int| 0 <= i < s@.len() ==> (#[trigger] s@[i] as u32) < 128) ==> r@ == s@.map_values(
            |c: char| ascii_lower_char(c),
        ),
{
    s.to_lowercase()
}

/// `needle` occurs in `hay` (the empty text occurs everywhere).
pub open spec fn contains_text(hay: Seq<char>, needle: Seq<char>) -> bool {
    exists|i: int| 0 <= i && i + needle.len() <= hay.len() && #[trigger] hay.subrange(i, i + needle.len()) == needle
}

/// Whether `needle` occurs in `hay`, as `str::contains` decides it.
pub fn text_contains(hay: &str, needle: &str) -> (r: bool)
    ensures
        r == contains_text(hay@, needle@),
{
    let h = string_chars(hay);
    let n = string_chars(needle);
    if n.len() > h.len() {
        return false;
    }
    let last = h.len() - n.len();
    let mut i: usize = 0;
    while i <= last
        invariant
            h@ == hay@,
            n@ == needle@,
            n@.len() <= h@.len(),
            last == h@.len() - n@.len(),
            h@.len() <= usize::MAX,
            i <= last + 1,
            forall|k: int| 0 <= k < i ==> #[trigger] h@.subrange(k, k + n@.len()) != n@,
        decreases h@.len() - i,
    {
        let mut j: usize = 0;
        let mut same = true;
        while j < n.len() && same
            invariant
                0 <= j <= n@.len(),
                i + n@.len() <= h@.len(),
                i <= last,
                i + n@.len() <= h@.len(),
                h@.len() <= usize::MAX,
                n@.len() <= h@.len(),
                last == h@.len() - n@.len(),
                forall|m: int| 0 <= m < j ==> h@[i + m] == n@[m],
                !same ==> j < n@.len() && h@[i + j] != n@[j as int],
            decreases n@.len() - j, if same { 1int } else { 0int },
        {
            if h[i + j] != n[j] {
                same = false;
            } else {
                j = j + 1;
            }
        }
        if same {
            assert(j == n@.len());
            assert(h@.subrange(i as int, i + n@.len()) =~= n@);
            return true;
        }
        assert(h@.subrange(i as int, i + n@.len()) != n@) by {
            assert(h@.subrange(i as int, i + n@.len())[j as int] == h@[i + j]);
        }
        i = i + 1;
    }
    false
}

} // verus!
