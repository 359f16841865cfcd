//! Soundex phonetic encoding.
//!
//! The Soundex code of a word is a four-character key (one uppercase letter
//! followed by three digits in `'0'..='6'`) that groups words with similar
//! pronunciation. This crate provides the encoder together with its two
//! classification helpers, all specified against a mathematical model of the
//! algorithm and verified.

use vstd::prelude::*;

verus! {

/// An input the encoder rejects: empty, or holding a character that is not
/// an ASCII letter.
#[derive(Clone, Copy, Debug, PartialEq, Eq, Structural)]
pub enum SoundexError {
    EmptyInput,
    InvalidCharacter,
}

/// True for the ASCII letters, the only characters the encoder accepts.
pub open spec fn letter(c: char) -> bool {
    ('a' <= c && c <= 'z') || ('A' <= c && c <= 'Z')
}

/// Every character of the sequence is an ASCII letter.
pub open spec fn all_letters(text: Seq<char>) -> bool {
    forall|i: int| 0 <= i < text.len() ==> letter(#[trigger] text[i])
}

/// The lowercase form of an ASCII letter; other characters are unchanged.
pub open spec fn lower(c: char) -> char {
    if 'A' <= c && c <= 'Z' {
        ((c as u8) + 32) as char
    } else {
        c
    }
}

/// The uppercase form of an ASCII letter; other characters are unchanged.
pub open spec fn upper(c: char) -> char {
    if 'a' <= c && c <= 'z' {
        ((c as u8) - 32) as char
    } else {
        c
    }
}

/// True exactly for the five lowercase vowels. The encoder applies this to
/// the case-folded previous character; note that `y` is not a vowel here
/// even though it contributes no digit, so it never acts as a separator.
pub open spec fn vowel(c: char) -> bool {
    c == 'a' || c == 'e' || c == 'i' || c == 'o' || c == 'u'
}

/// The phonetic digit class of a letter, case-folded: `None` for the vowels
/// and for `y`, `h`, `w`, which contribute no digit, and one of `'1'..='6'`
/// for the consonants.
pub open spec fn digit_class(c: char) -> Option<char>
    recommends
        letter(c),
{
    let l = lower(c);
    if l == 'a' || l == 'e' || l == 'i' || l == 'o' || l == 'u' || l == 'y' || l == 'h' || l == 'w' {
        None
    } else if l == 'b' || l == 'f' || l == 'p' || l == 'v' {
        Some('1')
    } else if l == 'c' || l == 'g' || l == 'j' || l == 'k' || l == 'q' || l == 's' || l == 'x'
        || l == 'z' {
        Some('2')
    } else if l == 'd' || l == 't' {
        Some('3')
    } else if l == 'l' {
        Some('4')
    } else if l == 'm' || l == 'n' {
        Some('5')
    } else if l == 'r' {
        Some('6')
    } else {
        None
    }
}

/// True for the characters a code may contain after its first: the digit
/// symbols `'0'` through `'6'`.
pub open spec fn code_digit(c: char) -> bool {
    '0' <= c && c <= '6'
}

/// Tests whether a character is an ASCII letter.
pub fn is_ascii_letter(c: char) -> (r: bool)
    ensures
        r == letter(c),
{
    ('a' <= c && c <= 'z') || ('A' <= c && c <= 'Z')
}

/// Tests whether a character is one of the five lowercase vowels.
pub fn is_vowel(c: char) -> (r: bool)
    ensures
        r == vowel(c),
{
    c == 'a' || c == 'e' || c == 'i' || c == 'o' || c == 'u'
}

/// Lowercases an ASCII letter; other characters pass through unchanged.
fn to_lower_char(c: char) -> (r: char)
    ensures
        r == lower(c),
{
    if 'A' <= c && c <= 'Z' {
        ((c as u8) + 32) as char
    } else {
        c
    }
}

/// Uppercases an ASCII letter; other characters pass through unchanged.
fn to_upper_char(c: char) -> (r: char)
    ensures
        r == upper(c),
{
    if 'a' <= c && c <= 'z' {
        ((c as u8) - 32) as char
    } else {
        c
    }
}

/// The digit class of a letter, as executable code.
fn classify(c: char) -> (r: Option<char>)
    requires
        letter(c),
    ensures
        r == digit_class(c),
{
    let l = to_lower_char(c);
    if l == 'a' || l == 'e' || l == 'i' || l == 'o' || l == 'u' || l == 'y' || l == 'h' || l == 'w' {
        None
    } else if l == 'b' || l == 'f' || l == 'p' || l == 'v' {
        Some('1')
    } else if l == 'c' || l == 'g' || l == 'j' || l == 'k' || l == 'q' || l == 's' || l == 'x'
        || l == 'z' {
        Some('2')
    } else if l == 'd' || l == 't' {
        Some('3')
    } else if l == 'l' {
        Some('4')
    } else if l == 'm' || l == 'n' {
        Some('5')
    } else {
        Some('6')
    }
}

/// The digit class of a character: `Ok(None)` for a letter without a digit,
/// `Ok(Some(d))` for a consonant of class `d`, and an error for any
/// character that is not an ASCII letter.
pub fn char_to_digit(c: char) -> (r: Result<Option<char>, SoundexError>)
    ensures
        letter(c) ==> r == Ok::<Option<char>, SoundexError>(digit_class(c)),
        !letter(c) ==> r == Err::<Option<char>, SoundexError>(SoundexError::InvalidCharacter),
{
    if is_ascii_letter(c) {
        Ok(classify(c))
    } else {
        Err(SoundexError::InvalidCharacter)
    }
}

/// One pass of the encoder over the characters that follow the first.
///
/// `rest` is what remains of the input, `prevc` the previous source
/// character, `prevd` the previous emitted digit (`'0'` before any digit is
/// emitted), and `acc` the code built so far, first letter included. A
/// character's digit is emitted only when it differs from the previous one
/// or the previous source character, case-folded, was a vowel; the scan
/// stops once the code holds four symbols.
pub open spec fn scan(rest: Seq<char>, prevc: char, prevd: char, acc: Seq<char>) -> Seq<char>
    decreases rest.len(),
{
    if acc.len() >= 4 || rest.len() == 0 {
        acc
    } else {
        let c = rest[0];
        let d = match digit_class(c) {
            Some(d0) => d0,
            None => prevd,
        };
        if d != prevd || vowel(lower(prevc)) {
            scan(rest.subrange(1, rest.len() as int), c, d, acc.push(d))
        } else {
            scan(rest.subrange(1, rest.len() as int), c, prevd, acc)
        }
    }
}

/// The previous-digit value the scan starts from: the first character's
/// digit class, or `'0'` when it has none.
pub open spec fn first_digit(c: char) -> char {
    match digit_class(c) {
        Some(d) => d,
        None => '0',
    }
}

/// The code before padding: the uppercased first character followed by the
/// digits the scan emits.
pub open spec fn raw_code(text: Seq<char>) -> Seq<char>
    recommends
        text.len() > 0,
{
    scan(text.subrange(1, text.len() as int), text[0], first_digit(text[0]), seq![upper(text[0])])
}

/// Right-pads a code with `'0'` until it holds four characters.
pub open spec fn pad(code: Seq<char>) -> Seq<char>
    decreases 4 - code.len(),
{
    if code.len() >= 4 {
        code
    } else {
        pad(code.push('0'))
    }
}

/// The Soundex code of a non-empty, all-letter input: the raw code padded
/// to exactly four characters.
pub open spec fn spec_soundex(text: Seq<char>) -> Seq<char>
    recommends
        text.len() > 0,
        all_letters(text),
{
    pad(raw_code(text))
}

/// Relies on String::push: appends the given character to the end of the
/// string.
#[verifier::external_body]
fn push_char(s: &mut String, c: char)
    ensures
        final(s)@ == old(s)@.push(c),
{
    s.push(c)
}

/// The Soundex code of `text`: one uppercase letter followed by three
/// digits. Fails with `EmptyInput` on an empty input and with
/// `InvalidCharacter` when any character is not an ASCII letter; on every
/// other input it returns exactly the code of the model.
pub fn soundex(text: &str) -> (r: Result<String, SoundexError>)
    ensures
        (r == Err::<String, SoundexError>(SoundexError::EmptyInput)) <==> text@.len() == 0,
        (r == Err::<String, SoundexError>(SoundexError::InvalidCharacter)) <==> (text@.len() > 0
            && !all_letters(text@)),
        (text@.len() > 0 && all_letters(text@)) ==> (r is Ok && r->Ok_0@ == spec_soundex(text@)),
{
    let n = text.unicode_len();
    if n == 0 {
        return Err(SoundexError::EmptyInput);
    }
    let mut i: usize = 0;
    while i < n
        invariant
            i <= n,
            n == text@.len(),
            forall|j: int| 0 <= j < i ==> letter(#[trigger] text@[j]),
        decreases n - i,
    {
        if !is_ascii_letter(text.get_char(i)) {
            return Err(SoundexError::InvalidCharacter);
        }
        i += 1;
    }
    let first = text.get_char(0);
    let mut code = String::new();
    push_char(&mut code, to_upper_char(first));
    let mut prevc = first;
    let mut prevd: char = match classify(first) {
        Some(d) => d,
        None => '0',
    };
    let mut count: usize = 1;
    let mut i: usize = 1;
    proof {
        assert(code@ =~= seq![upper(text@[0])]);
        assert(text@.subrange(1, n as int) =~= text@.subrange(i as int, n as int));
    }
    while i < n && count < 4
        invariant
            1 <= i <= n,
            n == text@.len(),
            all_letters(text@),
            count == code@.len(),
            1 <= count <= 4,
            scan(text@.subrange(i as int, n as int), prevc, prevd, code@) == raw_code(text@),
        decreases n - i,
    {
        let c = text.get_char(i);
        let d = match classify(c) {
            Some(d0) => d0,
            None => prevd,
        };
        proof {
            assert(text@.subrange(i as int, n as int).subrange(
                1,
                text@.subrange(i as int, n as int).len() as int,
            ) =~= text@.subrange(i as int + 1, n as int));
            assert(text@.subrange(i as int, n as int)[0] == text@[i as int]);
        }
        if d != prevd || is_vowel(to_lower_char(prevc)) {
            push_char(&mut code, d);
            count += 1;
            prevd = d;
        }
        prevc = c;
        i += 1;
    }
    proof {
        if count == 4 {
            assert(scan(text@.subrange(i as int, n as int), prevc, prevd, code@) == code@);
        } else {
            assert(i == n);
            assert(text@.subrange(i as int, n as int).len() == 0);
            assert(scan(text@.subrange(i as int, n as int), prevc, prevd, code@) == code@);
        }
        assert(code@ == raw_code(text@));
    }
    while count < 4
        invariant
            count == code@.len(),
            count <= 4,
            pad(code@) == spec_soundex(text@),
        decreases 4 - count,
    {
        push_char(&mut code, '0');
        count += 1;
    }
    Ok(code)
}

/// The scan only appends to the code it was given, never past four
/// characters, and everything it appends is a digit symbol.
proof fn lemma_scan_grows(rest: Seq<char>, prevc: char, prevd: char, acc: Seq<char>)
    requires
        code_digit(prevd),
    ensures
        acc.len() <= scan(rest, prevc, prevd, acc).len(),
        scan(rest, prevc, prevd, acc).len() <= if acc.len() >= 4 {
            acc.len() as int
        } else {
            4
        },
        forall|j: int| 0 <= j < acc.len() ==> scan(rest, prevc, prevd, acc)[j] == acc[j],
        forall|j: int|
            acc.len() <= j < scan(rest, prevc, prevd, acc).len() ==> code_digit(
                #[trigger] scan(rest, prevc, prevd, acc)[j],
            ),
    decreases rest.len(),
{
    if acc.len() >= 4 || rest.len() == 0 {
    } else {
        let c = rest[0];
        let d = match digit_class(c) {
            Some(d0) => d0,
            None => prevd,
        };
        assert(code_digit(d));
        let sub = rest.subrange(1, rest.len() as int);
        if d != prevd || vowel(lower(prevc)) {
            let acc2 = acc.push(d);
            lemma_scan_grows(sub, c, d, acc2);
            assert(scan(rest, prevc, prevd, acc) == scan(sub, c, d, acc2));
            assert forall|j: int| 0 <= j < acc.len() implies scan(rest, prevc, prevd, acc)[j]
                == acc[j] by {
                assert(scan(sub, c, d, acc2)[j] == acc2[j]);
                assert(acc2[j] == acc[j]);
            }
            assert forall|j: int|
                acc.len() <= j < scan(rest, prevc, prevd, acc).len() implies code_digit(
                scan(rest, prevc, prevd, acc)[j],
            ) by {
                if j == acc.len() {
                    assert(scan(sub, c, d, acc2)[j] == acc2[j]);
                    assert(acc2[j] == d);
                }
            }
        } else {
            lemma_scan_grows(sub, c, prevd, acc);
            assert(scan(rest, prevc, prevd, acc) == scan(sub, c, prevd, acc));
        }
    }
}

/// Padding gives exactly four characters: the code it was given, then
/// `'0'` in every position after it.
proof fn lemma_pad(code: Seq<char>)
    requires
        code.len() <= 4,
    ensures
        pad(code).len() == 4,
        forall|j: int| 0 <= j < code.len() ==> pad(code)[j] == code[j],
        forall|j: int| code.len() <= j < 4 ==> pad(code)[j] == '0',
    decreases 4 - code.len(),
{
    if code.len() >= 4 {
    } else {
        let code2 = code.push('0');
        lemma_pad(code2);
        assert(pad(code) == pad(code2));
        assert forall|j: int| 0 <= j < code.len() implies pad(code)[j] == code[j] by {
            assert(pad(code2)[j] == code2[j]);
            assert(code2[j] == code[j]);
        }
        assert forall|j: int| code.len() <= j < 4 implies pad(code)[j] == '0' by {
            if j == code.len() {
                assert(pad(code2)[j] == code2[j]);
                assert(code2[j] == '0');
            }
        }
    }
}

/// The raw code starts with the uppercased first character, never exceeds
/// four characters, and holds only digit symbols after the first.
proof fn lemma_raw_code(text: Seq<char>)
    requires
        text.len() > 0,
    ensures
        1 <= raw_code(text).len() <= 4,
        raw_code(text)[0] == upper(text[0]),
        forall|j: int| 1 <= j < raw_code(text).len() ==> code_digit(#[trigger] raw_code(text)[j]),
{
    let rest = text.subrange(1, text.len() as int);
    let acc0 = seq![upper(text[0])];
    assert(code_digit(first_digit(text[0])));
    lemma_scan_grows(rest, text[0], first_digit(text[0]), acc0);
    assert(raw_code(text) == scan(rest, text[0], first_digit(text[0]), acc0));
    assert(scan(rest, text[0], first_digit(text[0]), acc0)[0] == acc0[0]);
    assert(acc0[0] == upper(text[0]));
}

/// Every code is exactly four characters: the uppercased first input
/// character followed by three digit symbols in `'0'..='6'`.
pub proof fn lemma_code_shape(text: Seq<char>)
    requires
        text.len() > 0,
        all_letters(text),
    ensures
        spec_soundex(text).len() == 4,
        spec_soundex(text)[0] == upper(text[0]),
        'A' <= spec_soundex(text)[0] && spec_soundex(text)[0] <= 'Z',
        forall|j: int| 1 <= j < 4 ==> code_digit(#[trigger] spec_soundex(text)[j]),
{
    lemma_raw_code(text);
    lemma_pad(raw_code(text));
    assert(letter(text[0]));
    assert forall|j: int| 1 <= j < 4 implies code_digit(spec_soundex(text)[j]) by {
        if j < raw_code(text).len() {
            assert(spec_soundex(text)[j] == raw_code(text)[j]);
            assert(code_digit(raw_code(text)[j]));
        } else {
            assert(spec_soundex(text)[j] == '0');
        }
    }
}

/// Encoding is deterministic: the contract of `soundex` fixes every
/// successful result as `spec_soundex` of the input, so the results of any
/// two calls on equal inputs are equal.
pub proof fn lemma_deterministic(text: Seq<char>, r1: Seq<char>, r2: Seq<char>)
    requires
        r1 == spec_soundex(text),
        r2 == spec_soundex(text),
    ensures
        r1 == r2,
{
}

/// A code is the raw code right-padded with `'0'`: the raw symbols stand
/// unchanged at the front, and every later position holds `'0'`.
pub proof fn lemma_padding(text: Seq<char>)
    requires
        text.len() > 0,
        all_letters(text),
    ensures
        spec_soundex(text).len() == 4,
        raw_code(text).len() <= 4,
        forall|j: int| 0 <= j < raw_code(text).len() ==> spec_soundex(text)[j] == raw_code(text)[j],
        forall|j: int| raw_code(text).len() <= j < 4 ==> spec_soundex(text)[j] == '0',
{
    lemma_raw_code(text);
    lemma_pad(raw_code(text));
}

/// The case-folded form of an input: every character lowercased.
pub open spec fn folded(text: Seq<char>) -> Seq<char> {
    text.map_values(|c: char| lower(c))
}

/// Lowercasing is idempotent, and uppercasing a character is the same as
/// uppercasing its lowercase form.
proof fn lemma_case_fold_char(c: char)
    ensures
        lower(lower(c)) == lower(c),
        upper(lower(c)) == upper(c),
{
}

/// The scan is blind to case: folding the remaining input and the previous
/// character leaves the result unchanged. The previous digit and the code
/// built so far are scan outputs, not raw input, so they are not folded.
proof fn lemma_scan_case_fold(rest: Seq<char>, prevc: char, prevd: char, acc: Seq<char>)
    ensures
        scan(folded(rest), lower(prevc), prevd, acc) == scan(rest, prevc, prevd, acc),
    decreases rest.len(),
{
    assert(folded(rest).len() == rest.len());
    if acc.len() >= 4 || rest.len() == 0 {
    } else {
        let c = rest[0];
        lemma_case_fold_char(c);
        lemma_case_fold_char(prevc);
        assert(folded(rest)[0] == lower(c));
        assert(digit_class(lower(c)) == digit_class(c));
        assert(vowel(lower(lower(prevc))) == vowel(lower(prevc)));
        let sub = rest.subrange(1, rest.len() as int);
        assert(folded(rest).subrange(1, folded(rest).len() as int) =~= folded(sub));
        let d = match digit_class(c) {
            Some(d0) => d0,
            None => prevd,
        };
        if d != prevd || vowel(lower(prevc)) {
            lemma_scan_case_fold(sub, c, d, acc.push(d));
        } else {
            lemma_scan_case_fold(sub, c, prevd, acc);
        }
    }
}

/// Folding an input to lowercase does not change its code: every step of
/// the encoding is case-folded.
proof fn lemma_fold_soundex(text: Seq<char>)
    requires
        text.len() > 0,
    ensures
        spec_soundex(folded(text)) == spec_soundex(text),
{
    let f = folded(text);
    lemma_case_fold_char(text[0]);
    assert(f[0] == lower(text[0]));
    assert(digit_class(f[0]) == digit_class(text[0]));
    assert(f.subrange(1, f.len() as int) =~= folded(text.subrange(1, text.len() as int)));
    lemma_scan_case_fold(
        text.subrange(1, text.len() as int),
        text[0],
        first_digit(text[0]),
        seq![upper(text[0])],
    );
    assert(raw_code(f) == raw_code(text));
}

/// Codes are case-insensitive: two inputs equal up to ASCII case get the
/// same Soundex code.
pub proof fn lemma_case_insensitive(a: Seq<char>, b: Seq<char>)
    requires
        a.len() > 0,
        folded(a) == folded(b),
    ensures
        spec_soundex(a) == spec_soundex(b),
{
    assert(b.len() == folded(b).len());
    lemma_fold_soundex(a);
    lemma_fold_soundex(b);
}

} // verus!
