//! Soundex phonetic encoding: a word becomes a four-character code, one
//! uppercase letter followed by three digits, that fingerprints how the word
//! sounds. Repeated adjacent consonant sounds collapse into one digit, the
//! bridge letters `h` and `w` are transparent to that comparison, and a vowel
//! standing between two same-sounding consonants forces the digit to be
//! emitted a second time.

use vstd::prelude::*;

use crate::text::push_char;

verus! {

/// Classification of a single character, consulted once per character of the
/// scanned word.
pub enum CharClass {
    /// `a`, `e`, `i`, `o`, `u` or `y`: emits nothing, but marks that a vowel
    /// stands between the previous digit and the next consonant.
    VowelLike,
    /// `h` or `w`: emits nothing and is transparent, leaving the vowel mark
    /// exactly as it was.
    Bridge,
    /// A consonant with a sound digit `1`–`6`.
    Digit(char),
    /// Anything else (non-letters): emits nothing; like a bridge letter it
    /// leaves the vowel mark as it was.
    Unmapped,
}

pub open spec fn is_upper_letter(c: char) -> bool {
    'A' <= c && c <= 'Z'
}

pub open spec fn is_lower_letter(c: char) -> bool {
    'a' <= c && c <= 'z'
}

pub open spec fn is_ascii_letter(c: char) -> bool {
    is_upper_letter(c) || is_lower_letter(c)
}

/// Lowercase form of an ASCII uppercase letter; any other character is
/// unchanged.
pub open spec fn lower_char(c: char) -> char {
    if is_upper_letter(c) {
        ((c as u8) + 32) as char
    } else {
        c
    }
}

/// Uppercase form of an ASCII lowercase letter; any other character is
/// unchanged.
pub open spec fn upper_char(c: char) -> char {
    if is_lower_letter(c) {
        ((c as u8) - 32) as char
    } else {
        c
    }
}

/// The sound digit of a lowercase consonant, if it has one.
pub open spec fn digit_for(c: char) -> Option<char> {
    match c {
        'b' | 'f' | 'p' | 'v' => Some('1'),
        'c' | 'g' | 'j' | 'k' | 'q' | 's' | 'x' | 'z' => Some('2'),
        'd' | 't' => Some('3'),
        'l' => Some('4'),
        'm' | 'n' => Some('5'),
        'r' => Some('6'),
        _ => None,
    }
}

/// The class of a character, after lowercasing it.
pub open spec fn classify_char(c: char) -> CharClass {
    let l = lower_char(c);
    if l == 'a' || l == 'e' || l == 'i' || l == 'o' || l == 'u' || l == 'y' {
        CharClass::VowelLike
    } else if l == 'h' || l == 'w' {
        CharClass::Bridge
    } else {
        match digit_for(l) {
            Some(d) => CharClass::Digit(d),
            None => CharClass::Unmapped,
        }
    }
}

/// The digits emitted by the scan of `s` from position `i` onward, given the
/// most recently emitted digit `last` and whether a vowel has been seen since
/// that digit was emitted. A digit equal to `last` is emitted again only when
/// the vowel mark is set; the mark is cleared after every digit decision.
pub open spec fn scan_from(s: Seq<char>, i: int, last: Option<char>, vowel: bool) -> Seq<char>
    decreases s.len() - i,
{
    if i < 0 || i >= s.len() {
        Seq::empty()
    } else {
        match classify_char(s[i]) {
            CharClass::VowelLike => scan_from(s, i + 1, last, true),
            CharClass::Bridge => scan_from(s, i + 1, last, vowel),
            CharClass::Digit(d) => if last != Some(d) || vowel {
                seq![d] + scan_from(s, i + 1, Some(d), false)
            } else {
                scan_from(s, i + 1, Some(d), false)
            },
            CharClass::Unmapped => scan_from(s, i + 1, last, vowel),
        }
    }
}

/// All digits the word's scan emits: every character after the first, with an
/// empty comparison state to begin with.
pub open spec fn code_digits(s: Seq<char>) -> Seq<char> {
    scan_from(s, 1, None, false)
}

/// At most the first three emitted digits enter the code.
pub open spec fn clip3(d: Seq<char>) -> Seq<char> {
    if d.len() <= 3 {
        d
    } else {
        d.take(3)
    }
}

pub open spec fn zeros(n: nat) -> Seq<char> {
    Seq::new(n, |i: int| '0')
}

/// Right-pad with `'0'` up to four characters; a no-op at four or more.
pub open spec fn padded(s: Seq<char>) -> Seq<char> {
    if s.len() >= 4 {
        s
    } else {
        s + zeros((4 - s.len()) as nat)
    }
}

/// The code's first character: the uppercased first character of the word,
/// present exactly when that character is an ASCII letter.
pub open spec fn first_letter(s: Seq<char>) -> Option<char> {
    if s.len() > 0 && is_ascii_letter(s[0]) {
        Some(upper_char(s[0]))
    } else {
        None
    }
}

/// The whole encoding: absent when the word has no leading letter, otherwise
/// the uppercased first letter, up to three scan digits, zero-padded to four
/// characters.
pub open spec fn spec_soundex(s: Seq<char>) -> Option<Seq<char>> {
    match first_letter(s) {
        Some(f) => Some(padded(seq![f] + clip3(code_digits(s)))),
        None => None,
    }
}

fn to_lower(c: char) -> (r: char)
    ensures
        r == lower_char(c),
{
    if 'A' <= c && c <= 'Z' {
        ((c as u8) + 32) as char
    } else {
        c
    }
}

fn to_upper(c: char) -> (r: char)
    ensures
        r == upper_char(c),
{
    if 'a' <= c && c <= 'z' {
        ((c as u8) - 32) as char
    } else {
        c
    }
}

/// The sound digit of a lowercase consonant, or `None` for any other
/// character.
pub fn encode_digit(c: char) -> (r: Option<char>)
    ensures
        r == digit_for(c),
{
    match c {
        'b' | 'f' | 'p' | 'v' => Some('1'),
        'c' | 'g' | 'j' | 'k' | 'q' | 's' | 'x' | 'z' => Some('2'),
        'd' | 't' => Some('3'),
        'l' => Some('4'),
        'm' | 'n' => Some('5'),
        'r' => Some('6'),
        _ => None,
    }
}

/// The uppercased first character of the word when that character is an
/// ASCII letter, and `None` otherwise (in particular for the empty word).
pub fn encode_first_letter(input_word: &str) -> (r: Option<char>)
    ensures
        r == first_letter(input_word@),
{
    if input_word.unicode_len() == 0 {
        return None;
    }
    let c = input_word.get_char(0);
    if ('A' <= c && c <= 'Z') || ('a' <= c && c <= 'z') {
        Some(to_upper(c))
    } else {
        None
    }
}

/// The class that decides how the scan treats a character.
pub fn classify(c: char) -> (r: CharClass)
    ensures
        r == classify_char(c),
{
    let l = to_lower(c);
    if l == 'a' || l == 'e' || l == 'i' || l == 'o' || l == 'u' || l == 'y' {
        CharClass::VowelLike
    } else if l == 'h' || l == 'w' {
        CharClass::Bridge
    } else {
        match encode_digit(l) {
            Some(d) => CharClass::Digit(d),
            None => CharClass::Unmapped,
        }
    }
}

/// The last character of a partial code, or `None` when it is empty.
pub fn last_digit(encoded: &str) -> (r: Option<char>)
    ensures
        r == (if encoded@.len() == 0 {
            None::<char>
        } else {
            Some(encoded@.last())
        }),
{
    let n = encoded.unicode_len();
    if n == 0 {
        None
    } else {
        Some(encoded.get_char(n - 1))
    }
}

/// Right-pads the partial code with `'0'` until it is four characters long.
pub fn zero_pad(encoded: String) -> (r: String)
    ensures
        r@ == padded(encoded@),
{
    let ghost orig: Seq<char> = encoded@;
    let mut out = encoded;
    let mut n = out.as_str().unicode_len();
    proof {
        assert(out@ =~= orig + zeros(0));
    }
    while n < 4
        invariant
            n == out@.len(),
            orig.len() <= n,
            n <= 4 || n == orig.len(),
            out@ == orig + zeros((n - orig.len()) as nat),
        decreases 4 - n,
    {
        push_char(&mut out, '0');
        n = n + 1;
        proof {
            assert(out@ =~= orig + zeros((n - orig.len()) as nat));
        }
    }
    proof {
        if orig.len() >= 4 {
            assert(out@ =~= orig);
        }
        assert(out@ =~= padded(orig));
    }
    out
}

/// Encodes a word as its four-character soundex code: the uppercased first
/// letter followed by up to three sound digits, zero-padded to length four.
/// The result is absent exactly when the word's first character is not an
/// ASCII letter (in particular for the empty word); every other input,
/// however unusual, yields a code.
pub fn soundex(input_word: &str) -> (r: Option<String>)
    ensures
        r is Some <==> (input_word@.len() > 0 && is_ascii_letter(input_word@[0])),
        r matches Some(code) ==> Some(code@) == spec_soundex(input_word@),
        r matches Some(code) ==> code@.len() == 4 && is_upper_letter(code@[0]) && (forall|k: int|
            1 <= k < 4 ==> '0' <= #[trigger] code@[k] && code@[k] <= '6'),
{
    let ghost s: Seq<char> = input_word@;
    let len = input_word.unicode_len();
    let first = match encode_first_letter(input_word) {
        Some(f) => f,
        None => {
            return None;
        },
    };
    let mut encoded = String::new();
    push_char(&mut encoded, first);
    let mut taken: usize = 1;
    let mut last: Option<char> = None;
    let mut vowel: bool = false;
    let mut i: usize = 1;
    proof {
        assert(encoded@ =~= seq![upper_char(s[0])]);
        assert(encoded@.skip(1) =~= Seq::<char>::empty());
        assert(code_digits(s) =~= encoded@.skip(1) + scan_from(s, 1, last, vowel));
    }
    while i < len && taken < 4
        invariant
            s == input_word@,
            len == s.len(),
            s.len() > 0 && is_ascii_letter(s[0]),
            1 <= i <= len,
            1 <= taken <= 4,
            encoded@.len() == taken,
            encoded@[0] == upper_char(s[0]),
            code_digits(s) == encoded@.skip(1) + scan_from(s, i as int, last, vowel),
        decreases len - i,
    {
        let ghost prev: Seq<char> = encoded@;
        let c = input_word.get_char(i);
        match classify(c) {
            CharClass::VowelLike => {
                vowel = true;
            },
            CharClass::Bridge => {},
            CharClass::Digit(d) => {
                let emit = match last {
                    Some(p) => p != d || vowel,
                    None => true,
                };
                if emit {
                    push_char(&mut encoded, d);
                    taken = taken + 1;
                    proof {
                        assert(encoded@.skip(1) =~= prev.skip(1) + seq![d]);
                        assert(prev.skip(1) + (seq![d] + scan_from(s, i + 1, Some(d), false))
                            =~= (prev.skip(1) + seq![d]) + scan_from(s, i + 1, Some(d), false));
                    }
                }
                last = Some(d);
                vowel = false;
            },
            CharClass::Unmapped => {},
        }
        i = i + 1;
    }
    proof {
        let digits = code_digits(s);
        if taken == 4 {
            assert(encoded@.skip(1).len() == 3);
            assert(clip3(digits) =~= encoded@.skip(1));
        } else {
            assert(i == len);
            assert(scan_from(s, len as int, last, vowel) =~= Seq::<char>::empty());
            assert(digits =~= encoded@.skip(1));
        }
        assert(seq![upper_char(s[0])] + clip3(digits) =~= encoded@);
        lemma_code_shape(s);
    }
    let encoded = zero_pad(encoded);
    Some(encoded)
}

/// Holds when every character of `d` is a sound digit, `'1'` to `'6'`.
pub open spec fn all_scan_digits(d: Seq<char>) -> bool {
    forall|k: int| 0 <= k < d.len() ==> '1' <= #[trigger] d[k] && d[k] <= '6'
}

/// Every digit the scan emits lies between `'1'` and `'6'`.
pub proof fn lemma_scan_digits_range(s: Seq<char>, i: int, last: Option<char>, vowel: bool)
    ensures
        all_scan_digits(scan_from(s, i, last, vowel)),
    decreases s.len() - i,
{
    if i < 0 || i >= s.len() {
    } else {
        match classify_char(s[i]) {
            CharClass::VowelLike => {
                lemma_scan_digits_range(s, i + 1, last, true);
            },
            CharClass::Bridge => {
                lemma_scan_digits_range(s, i + 1, last, vowel);
            },
            CharClass::Digit(d) => {
                lemma_scan_digits_range(s, i + 1, Some(d), false);
                assert('1' <= d && d <= '6');
                if last != Some(d) || vowel {
                    let out = scan_from(s, i, last, vowel);
                    let rest = scan_from(s, i + 1, Some(d), false);
                    assert(out == seq![d] + rest);
                    assert forall|k: int| 0 <= k < out.len() implies '1' <= #[trigger] out[k]
                        && out[k] <= '6' by {
                        if k > 0 {
                            assert(out[k] == rest[k - 1]);
                        }
                    }
                }
            },
            CharClass::Unmapped => {
                lemma_scan_digits_range(s, i + 1, last, vowel);
            },
        }
    }
}

/// Shape law: a present code is exactly four characters, one uppercase
/// letter followed by three digit characters, each between `'0'` and `'6'`.
pub proof fn lemma_code_shape(s: Seq<char>)
    requires
        spec_soundex(s) is Some,
    ensures
        spec_soundex(s)->0.len() == 4,
        is_upper_letter(spec_soundex(s)->0[0]),
        forall|k: int|
            1 <= k < 4 ==> '0' <= #[trigger] spec_soundex(s)->0[k] && spec_soundex(s)->0[k]
                <= '6',
{
    lemma_scan_digits_range(s, 1, None, false);
}

/// Determinism law: the code is a function of the word alone, so equal words
/// always receive equal codes.
pub proof fn lemma_soundex_deterministic(s: Seq<char>, t: Seq<char>)
    requires
        s == t,
    ensures
        spec_soundex(s) == spec_soundex(t),
{
}

/// Padding law: when the scan yields `k` digits with `k < 3`, the code is the
/// first letter, those `k` digits, and `3 - k` zeros.
pub proof fn lemma_soundex_padding(s: Seq<char>)
    requires
        spec_soundex(s) is Some,
        code_digits(s).len() < 3,
    ensures
        spec_soundex(s)->0 == seq![upper_char(s[0])] + code_digits(s) + zeros(
            (3 - code_digits(s).len()) as nat,
        ),
{
    assert(spec_soundex(s)->0 =~= seq![upper_char(s[0])] + code_digits(s) + zeros(
        (3 - code_digits(s).len()) as nat,
    ));
}

pub open spec fn map_lower(s: Seq<char>) -> Seq<char> {
    s.map_values(|c: char| lower_char(c))
}

pub open spec fn map_upper(s: Seq<char>) -> Seq<char> {
    s.map_values(|c: char| upper_char(c))
}

/// Changing a character's case changes neither its class nor the case-mapped
/// forms of it that the encoding consults.
proof fn lemma_char_case(c: char)
    ensures
        lower_char(lower_char(c)) == lower_char(c),
        lower_char(upper_char(c)) == lower_char(c),
        upper_char(upper_char(c)) == upper_char(c),
        upper_char(lower_char(c)) == upper_char(c),
        is_ascii_letter(lower_char(c)) == is_ascii_letter(c),
        is_ascii_letter(upper_char(c)) == is_ascii_letter(c),
        classify_char(lower_char(c)) == classify_char(c),
        classify_char(upper_char(c)) == classify_char(c),
{
}

/// Two words whose characters classify alike are scanned alike.
proof fn lemma_scan_classify_equal(s: Seq<char>, t: Seq<char>, i: int, last: Option<char>, vowel: bool)
    requires
        s.len() == t.len(),
        forall|k: int| 0 <= k < s.len() ==> classify_char(#[trigger] t[k]) == classify_char(s[k]),
    ensures
        scan_from(t, i, last, vowel) == scan_from(s, i, last, vowel),
    decreases s.len() - i,
{
    if i < 0 || i >= s.len() {
    } else {
        match classify_char(s[i]) {
            CharClass::VowelLike => lemma_scan_classify_equal(s, t, i + 1, last, true),
            CharClass::Bridge => lemma_scan_classify_equal(s, t, i + 1, last, vowel),
            CharClass::Digit(d) => lemma_scan_classify_equal(s, t, i + 1, Some(d), false),
            CharClass::Unmapped => lemma_scan_classify_equal(s, t, i + 1, last, vowel),
        }
    }
}

/// Case-insensitivity law: uppercasing or lowercasing every character of a
/// word leaves its code (and its absence) unchanged.
pub proof fn lemma_soundex_case_insensitive(s: Seq<char>)
    ensures
        spec_soundex(map_upper(s)) == spec_soundex(s),
        spec_soundex(map_lower(s)) == spec_soundex(s),
{
    let u = map_upper(s);
    let l = map_lower(s);
    assert forall|k: int| 0 <= k < s.len() implies classify_char(#[trigger] u[k]) == classify_char(
        s[k],
    ) by {
        lemma_char_case(s[k]);
    }
    assert forall|k: int| 0 <= k < s.len() implies classify_char(#[trigger] l[k]) == classify_char(
        s[k],
    ) by {
        lemma_char_case(s[k]);
    }
    lemma_scan_classify_equal(s, u, 1, None, false);
    lemma_scan_classify_equal(s, l, 1, None, false);
    if s.len() > 0 {
        lemma_char_case(s[0]);
    }
}

} // verus!

