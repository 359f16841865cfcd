use soundex::char_to_digit;
use soundex::is_ascii_letter;
use soundex::is_vowel;
use soundex::soundex;
use soundex::SoundexError;

#[test]
fn it_works() {
    assert_eq!(soundex("ammonium").unwrap(), "A555");

    assert_eq!(soundex("Robert").unwrap(), "R163");
    assert_eq!(soundex("Rubin").unwrap(), "R150");
    assert_eq!(soundex("Ashcraft").unwrap(), "A261");

    // 'z' and 'k' in the name are coded as 2 twice since a vowel lies in between them
    assert_eq!(soundex("Tymczak").unwrap(), "T522");

    // the first two letters have the same number and are coded once as 'P'
    assert_eq!(soundex("Pfister").unwrap(), "P236");

    assert_eq!(soundex("Honeyman").unwrap(), "H555");
}

#[test]
fn same_code() {
    assert_eq!(soundex("Ashcraft").unwrap(), soundex("Ashcroft").unwrap());
    assert_eq!(soundex("Robert").unwrap(), soundex("Rupert").unwrap());
}

#[test]
fn short_code() {
    assert_eq!(soundex("Ji").unwrap(), "J000");
    assert_eq!(soundex("Zhu").unwrap(), "Z000");
    assert_eq!(soundex("Olya").unwrap(), "O400");
}

#[test]
fn empty_input_is_rejected() {
    assert_eq!(soundex(""), Err(SoundexError::EmptyInput));
}

#[test]
fn digit_characters_are_rejected() {
    assert_eq!(soundex("R2D2"), Err(SoundexError::InvalidCharacter));
    assert_eq!(soundex("Ashcraft9"), Err(SoundexError::InvalidCharacter));
}

#[test]
fn symbol_characters_are_rejected() {
    assert_eq!(soundex("Ash-craft"), Err(SoundexError::InvalidCharacter));
    assert_eq!(soundex("O'Brien"), Err(SoundexError::InvalidCharacter));
    assert_eq!(soundex(" "), Err(SoundexError::InvalidCharacter));
}

#[test]
fn code_shape() {
    for word in ["a", "Zhu", "ammonium", "Honeyman", "abcdefghijklmnopqrstuvwxyz"] {
        let code = soundex(word).unwrap();
        assert_eq!(code.len(), 4);
        let chars: Vec<char> = code.chars().collect();
        assert!(chars[0].is_ascii_uppercase());
        for &d in &chars[1..] {
            assert!(('0'..='6').contains(&d));
        }
    }
}

#[test]
fn first_letter_is_preserved() {
    assert_eq!(soundex("olya").unwrap().chars().next(), Some('O'));
    assert_eq!(soundex("robert").unwrap().chars().next(), Some('R'));
    assert_eq!(soundex("Ws").unwrap().chars().next(), Some('W'));
}

#[test]
fn repeated_calls_agree() {
    assert_eq!(soundex("Tymczak").unwrap(), soundex("Tymczak").unwrap());
    assert_eq!(soundex("Pfister").unwrap(), soundex("Pfister").unwrap());
    assert_eq!(soundex(""), soundex(""));
}

#[test]
fn single_letter_is_padded() {
    assert_eq!(soundex("a").unwrap(), "A000");
    assert_eq!(soundex("Q").unwrap(), "Q000");
    assert_eq!(soundex("Aa").unwrap(), "A000");
}

#[test]
fn uppercase_input() {
    assert_eq!(soundex("ROBERT").unwrap(), "R163");
    assert_eq!(soundex("RUBIN").unwrap(), "R150");
    assert_eq!(soundex("AMMONIUM").unwrap(), "A555");
    assert_eq!(soundex("TYMCZAK").unwrap(), "T522");
    assert_eq!(soundex("HONEYMAN").unwrap(), "H555");
}

#[test]
fn case_insensitive() {
    assert_eq!(soundex("ammonium").unwrap(), soundex("AMMONIUM").unwrap());
    assert_eq!(soundex("Ashcraft").unwrap(), soundex("aShCrAfT").unwrap());
    assert_eq!(soundex("Pfister").unwrap(), soundex("pfISTer").unwrap());
    assert_eq!(soundex("Honeyman").unwrap(), soundex("hONEYMAn").unwrap());
}

#[test]
fn digit_classes() {
    assert_eq!(char_to_digit('b'), Ok(Some('1')));
    assert_eq!(char_to_digit('V'), Ok(Some('1')));
    assert_eq!(char_to_digit('c'), Ok(Some('2')));
    assert_eq!(char_to_digit('X'), Ok(Some('2')));
    assert_eq!(char_to_digit('d'), Ok(Some('3')));
    assert_eq!(char_to_digit('T'), Ok(Some('3')));
    assert_eq!(char_to_digit('l'), Ok(Some('4')));
    assert_eq!(char_to_digit('m'), Ok(Some('5')));
    assert_eq!(char_to_digit('N'), Ok(Some('5')));
    assert_eq!(char_to_digit('r'), Ok(Some('6')));
    assert_eq!(char_to_digit('a'), Ok(None));
    assert_eq!(char_to_digit('E'), Ok(None));
    assert_eq!(char_to_digit('y'), Ok(None));
    assert_eq!(char_to_digit('h'), Ok(None));
    assert_eq!(char_to_digit('W'), Ok(None));
    assert_eq!(char_to_digit('3'), Err(SoundexError::InvalidCharacter));
    assert_eq!(char_to_digit('%'), Err(SoundexError::InvalidCharacter));
}

#[test]
fn vowel_test() {
    assert!(is_vowel('a'));
    assert!(is_vowel('e'));
    assert!(is_vowel('i'));
    assert!(is_vowel('o'));
    assert!(is_vowel('u'));
    assert!(!is_vowel('y'));
    assert!(!is_vowel('A'));
    assert!(!is_vowel('b'));
}

#[test]
fn letter_test() {
    assert!(is_ascii_letter('q'));
    assert!(is_ascii_letter('Q'));
    assert!(!is_ascii_letter('9'));
    assert!(!is_ascii_letter(' '));
    assert!(!is_ascii_letter('-'));
}
