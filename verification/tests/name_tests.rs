use blokus::name::check_name;
use blokus::name::name_pattern;
use blokus::name::name_verdict;
use blokus::name::NameError;

#[test]
fn names_of_allowed_characters_pass() {
    assert_eq!(check_name("Anonymous"), Ok(()));
    assert_eq!(check_name("a"), Ok(()));
    assert_eq!(check_name("a_b-c#@$%*,Z"), Ok(()));
    // the characters between `Z` and `a` belong to the range
    assert_eq!(check_name("[\\]^`"), Ok(()));
    assert_eq!(check_name("abcdefghijklmnopqrstuvwxyzABCD"), Ok(()));
}

#[test]
fn names_of_wrong_length_are_refused() {
    assert_eq!(check_name(""), Err(NameError::Length));
    assert_eq!(check_name("abcdefghijklmnopqrstuvwxyzABCDE"), Err(NameError::Length));
    // the length is looked at before the characters
    assert_eq!(check_name("0123456789012345678901234567890"), Err(NameError::Length));
    // bytes count, not characters
    assert_eq!(check_name("éééééééééééééééé"), Err(NameError::Length));
}

#[test]
fn names_with_other_characters_are_refused() {
    assert_eq!(check_name("with space"), Err(NameError::Pattern));
    assert_eq!(check_name("abc1"), Err(NameError::Pattern));
    assert_eq!(check_name("a.b"), Err(NameError::Pattern));
    assert_eq!(check_name("é"), Err(NameError::Pattern));
    assert_eq!(check_name("a\n"), Err(NameError::Pattern));
    assert_eq!(check_name("{"), Err(NameError::Pattern));
}

#[test]
fn verdict_for_each_finding() {
    assert_eq!(name_verdict(0, Some(true)), Err(NameError::Length));
    assert_eq!(name_verdict(31, Some(true)), Err(NameError::Length));
    assert_eq!(name_verdict(1, Some(true)), Ok(()));
    assert_eq!(name_verdict(30, Some(true)), Ok(()));
    assert_eq!(name_verdict(30, Some(false)), Err(NameError::Pattern));
    assert_eq!(name_verdict(5, None), Err(NameError::Pattern));
    assert_eq!(name_pattern(), "^[A-z_\\-#@$%*,]+$");
}
