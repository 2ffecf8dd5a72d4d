use std::collections::HashSet;

use hsh_parse::tables::{
    form_valid_operator, form_valid_reserved_word, is_operator_begin, is_valid_operator,
    is_valid_reserved_word, operator_begin_table, operator_table, reserved_word_table,
};

#[test]
fn test_operators() {
    let expected: HashSet<char> = operator_table().into_iter().map(|s| s[0]).collect();
    let actual: HashSet<char> = operator_begin_table().into_iter().collect();
    assert_eq!(actual, expected, "OPERATORS_BEGIN does not match all begins of OPERATORS");
}

#[test]
fn operator_begin_matches_table() {
    for c in ['&', '|', ';', '<', '>', '(', ')'] {
        assert!(is_operator_begin(c));
    }
    for c in ['a', '-', '$', '#', ' ', '{', '!'] {
        assert!(!is_operator_begin(c));
    }
}

#[test]
fn operator_lookups() {
    assert_eq!(operator_table().len(), 17);
    for op in ["&&", "||", ";;", "<<", ">>", "<&", ">&", "<>", "<<-", ">|", "&", "|", "(", ")", ";", "<", ">"] {
        assert!(is_valid_operator(op), "{}", op);
    }
    assert!(!is_valid_operator("<<|"));
    assert!(!is_valid_operator(""));
    assert!(!is_valid_operator("&&&"));
    assert!(form_valid_operator("<<", '-'));
    assert!(form_valid_operator("", '<'));
    assert!(form_valid_operator(">", '|'));
    assert!(!form_valid_operator("<<", '|'));
    assert!(!form_valid_operator(">>", '>'));
}

#[test]
fn reserved_word_lookups() {
    assert_eq!(reserved_word_table().len(), 20);
    for word in ["if", "then", "else", "elif", "fi", "do", "done", "case", "esac", "while", "until", "for", "in", "{", "}", "!", "[[", "]]", "function", "select"] {
        assert!(is_valid_reserved_word(word), "{}", word);
    }
    assert!(!is_valid_reserved_word("iff"));
    assert!(!is_valid_reserved_word("d"));
    assert!(form_valid_reserved_word("do", 'n'));
    assert!(form_valid_reserved_word("", 'w'));
    assert!(form_valid_reserved_word("functio", 'n'));
    assert!(!form_valid_reserved_word("fi", 'x'));
}
