use forth::{Machine, Token, Word};
use vstd::hash_map::StringHashMap;

#[test]
fn new_machine_has_an_empty_stack() {
    let m = Machine::default();
    assert!(m.stack().is_empty());
}

#[test]
fn space_is_defined() {
    let mut m = Machine::default();
    assert_eq!(
        m.definition("space"),
        Some(&vec![Token::Number(32), Token::Builtin(Word::Emit)])
    );
    assert_eq!(m.eval("space"), Ok("  ".to_string()));
}

#[test]
fn cr_is_defined() {
    let mut m = Machine::default();
    assert_eq!(
        m.definition("cr"),
        Some(&vec![
            Token::Number(13),
            Token::Builtin(Word::Emit),
            Token::Number(10),
            Token::Builtin(Word::Emit)
        ])
    );
    assert_eq!(m.eval("cr"), Ok("\r \n ".to_string()));
}

#[test]
fn over_is_defined() {
    let mut m = Machine::default();
    assert_eq!(
        m.definition("over"),
        Some(&vec![
            Token::Builtin(Word::Swap),
            Token::Builtin(Word::Dup),
            Token::Builtin(Word::Rot),
            Token::Builtin(Word::Swap)
        ])
    );
    assert_eq!(m.eval("1 2 over"), Ok(String::new()));
    assert_eq!(m.stack(), &vec![1, 2, 1]);
}

#[test]
fn starting_words_can_be_redefined() {
    let mut m = Machine::default();
    assert_eq!(m.eval(": over drop"), Ok(String::new()));
    assert_eq!(m.eval("1 2 over"), Ok(String::new()));
    assert_eq!(m.stack(), &vec![1]);
}

#[test]
fn machine_with_a_given_dictionary() {
    let mut dictionary: StringHashMap<Vec<Token>> = StringHashMap::new();
    dictionary.insert(
        "twice".to_string(),
        vec![Token::Builtin(Word::Dup), Token::Builtin(Word::Plus)],
    );
    let mut m = Machine::with_dictionary(dictionary);
    assert!(m.stack().is_empty());
    assert_eq!(m.eval("21 twice ."), Ok("42 ".to_string()));
    assert!(m.definition("over").is_none());
    assert_eq!(
        m.definition("twice"),
        Some(&vec![Token::Builtin(Word::Dup), Token::Builtin(Word::Plus)])
    );
}
