//! The fixed tables of operator spellings and reserved words, and lookups in them.
use vstd::prelude::*;
use crate::text::chars_of;

verus! {

/// The control operators, longest spellings first within each family.
pub open spec fn operators() -> Seq<Seq<char>> {
    seq![
        seq!['&', '&'],
        seq!['|', '|'],
        seq![';', ';'],
        seq!['<', '<'],
        seq!['>', '>'],
        seq!['<', '&'],
        seq!['>', '&'],
        seq!['<', '>'],
        seq!['<', '<', '-'],
        seq!['>', '|'],
        seq!['&'],
        seq!['|'],
        seq!['('],
        seq![')'],
        seq![';'],
        seq!['<'],
        seq!['>'],
    ]
}

/// The characters that can start an operator.
pub open spec fn operator_begin_chars() -> Seq<char> {
    seq!['&', '|', ';', '<', '>', '(', ')']
}

/// The reserved words of the shell grammar.
pub open spec fn reserved_words() -> Seq<Seq<char>> {
    seq![
        seq!['{'],
        seq!['}'],
        seq!['!'],
        seq!['i', 'f'],
        seq!['t', 'h', 'e', 'n'],
        seq!['e', 'l', 's', 'e'],
        seq!['e', 'l', 'i', 'f'],
        seq!['f', 'i'],
        seq!['d', 'o'],
        seq!['d', 'o', 'n', 'e'],
        seq!['c', 'a', 's', 'e'],
        seq!['e', 's', 'a', 'c'],
        seq!['w', 'h', 'i', 'l', 'e'],
        seq!['u', 'n', 't', 'i', 'l'],
        seq!['f', 'o', 'r'],
        seq!['i', 'n'],
        seq!['[', '['],
        seq![']', ']'],
        seq!['f', 'u', 'n', 'c', 't', 'i', 'o', 'n'],
        seq!['s', 'e', 'l', 'e', 'c', 't'],
    ]
}

/// `s` is a prefix of some entry of `table`.
pub open spec fn prefix_of_entry(s: Seq<char>, table: Seq<Seq<char>>) -> bool {
    exists|i: int| 0 <= i < table.len() && s.is_prefix_of(#[trigger] table[i])
}

/// `s` is spelled exactly like an operator.
pub open spec fn is_operator(s: Seq<char>) -> bool {
    operators().contains(s)
}

/// `s` is spelled exactly like a reserved word.
pub open spec fn is_reserved_word(s: Seq<char>) -> bool {
    reserved_words().contains(s)
}

/// Some operator starts with `c`.
pub open spec fn begins_operator(c: char) -> bool {
    prefix_of_entry(seq![c], operators())
}

/// The cached set of operator-begin characters holds exactly the first characters of the
/// operators: each operator starts with one of them, and each of them starts an operator.
pub proof fn lemma_operator_begin_chars_exact()
    ensures
        forall|i: int|
            0 <= i < operators().len() ==> operator_begin_chars().contains(
                #[trigger] operators()[i][0],
            ),
        forall|c: char| operator_begin_chars().contains(c) <==> begins_operator(c),
{
    assert forall|c: char| operator_begin_chars().contains(c) implies begins_operator(c) by {
        let k = choose|k: int| 0 <= k < operator_begin_chars().len() && operator_begin_chars()[k] == c;
        let i: int = if k == 0 { 10 } else if k == 1 { 11 } else if k == 2 { 14 } else if k == 3 {
            15
        } else if k == 4 { 16 } else if k == 5 { 12 } else { 13 };
        assert(seq![c] =~= operators()[i].subrange(0, 1));
    }
    assert forall|c: char| begins_operator(c) implies operator_begin_chars().contains(c) by {
        let i = choose|i: int| 0 <= i < operators().len() && seq![c].is_prefix_of(#[trigger] operators()[i]);
        assert(seq![c][0] == operators()[i][0]);
        assert(operator_begin_chars()[0] == '&');
        assert(operator_begin_chars()[1] == '|');
        assert(operator_begin_chars()[2] == ';');
        assert(operator_begin_chars()[3] == '<');
        assert(operator_begin_chars()[4] == '>');
        assert(operator_begin_chars()[5] == '(');
        assert(operator_begin_chars()[6] == ')');
    }
    assert forall|i: int| 0 <= i < operators().len() implies operator_begin_chars().contains(
        #[trigger] operators()[i][0],
    ) by {
        assert(operator_begin_chars()[0] == '&');
        assert(operator_begin_chars()[1] == '|');
        assert(operator_begin_chars()[2] == ';');
        assert(operator_begin_chars()[3] == '<');
        assert(operator_begin_chars()[4] == '>');
        assert(operator_begin_chars()[5] == '(');
        assert(operator_begin_chars()[6] == ')');
    }
}

/// The operator spellings, in table order.
pub fn operator_table() -> (t: Vec<Vec<char>>)
    ensures
        t.deep_view() == operators(),
{
    let t = vec![
        vec!['&', '&'],
        vec!['|', '|'],
        vec![';', ';'],
        vec!['<', '<'],
        vec!['>', '>'],
        vec!['<', '&'],
        vec!['>', '&'],
        vec!['<', '>'],
        vec!['<', '<', '-'],
        vec!['>', '|'],
        vec!['&'],
        vec!['|'],
        vec!['('],
        vec![')'],
        vec![';'],
        vec!['<'],
        vec!['>'],
    ];
    assert forall|i: int| 0 <= i < 17 implies #[trigger] t.deep_view()[i] =~= operators()[i] by {}
    assert(t.deep_view() =~= operators());
    t
}

/// The characters that can start an operator, in table order.
pub fn operator_begin_table() -> (t: Vec<char>)
    ensures
        t@ == operator_begin_chars(),
{
    let t = vec!['&', '|', ';', '<', '>', '(', ')'];
    assert(t@ =~= operator_begin_chars());
    t
}

/// The reserved words, in table order.
pub fn reserved_word_table() -> (t: Vec<Vec<char>>)
    ensures
        t.deep_view() == reserved_words(),
{
    let t = vec![
        vec!['{'],
        vec!['}'],
        vec!['!'],
        vec!['i', 'f'],
        vec!['t', 'h', 'e', 'n'],
        vec!['e', 'l', 's', 'e'],
        vec!['e', 'l', 'i', 'f'],
        vec!['f', 'i'],
        vec!['d', 'o'],
        vec!['d', 'o', 'n', 'e'],
        vec!['c', 'a', 's', 'e'],
        vec!['e', 's', 'a', 'c'],
        vec!['w', 'h', 'i', 'l', 'e'],
        vec!['u', 'n', 't', 'i', 'l'],
        vec!['f', 'o', 'r'],
        vec!['i', 'n'],
        vec!['[', '['],
        vec![']', ']'],
        vec!['f', 'u', 'n', 'c', 't', 'i', 'o', 'n'],
        vec!['s', 'e', 'l', 'e', 'c', 't'],
    ];
    assert forall|i: int| 0 <= i < 20 implies #[trigger] t.deep_view()[i] =~= reserved_words()[i] by {}
    assert(t.deep_view() =~= reserved_words());
    t
}

/// Whether `prefix` is a prefix of `s`.
fn has_prefix(s: &Vec<char>, prefix: &Vec<char>) -> (r: bool)
    ensures
        r == prefix@.is_prefix_of(s@),
{
    if prefix.len() > s.len() {
        return false;
    }
    let mut i: usize = 0;
    while i < prefix.len()
        invariant
            prefix.len() <= s.len(),
            i <= prefix.len(),
            prefix@.take(i as int) =~= s@.take(i as int),
        decreases prefix.len() - i,
    {
        if prefix[i] != s[i] {
            assert(prefix@[i as int] != s@.subrange(0, prefix.len() as int)[i as int]);
            return false;
        }
        i = i + 1;
        assert(prefix@.take(i as int) =~= prefix@.take(i - 1).push(prefix@[i - 1]));
        assert(s@.take(i as int) =~= s@.take(i - 1).push(s@[i - 1]));
    }
    assert(prefix@ =~= s@.subrange(0, prefix.len() as int));
    true
}

/// Whether `s` is a prefix of some entry of `table`.
fn prefix_of_any(table: &Vec<Vec<char>>, s: &Vec<char>) -> (r: bool)
    ensures
        r == prefix_of_entry(s@, table.deep_view()),
{
    let mut i: usize = 0;
    while i < table.len()
        invariant
            i <= table.len(),
            forall|j: int| 0 <= j < i ==> !s@.is_prefix_of(#[trigger] table.deep_view()[j]),
        decreases table.len() - i,
    {
        if has_prefix(&table[i], s) {
            assert(s@.is_prefix_of(table.deep_view()[i as int]));
            return true;
        }
        i = i + 1;
    }
    false
}

/// Whether `s` equals some entry of `table`.
fn equals_any(table: &Vec<Vec<char>>, s: &Vec<char>) -> (r: bool)
    ensures
        r == table.deep_view().contains(s@),
{
    let mut i: usize = 0;
    while i < table.len()
        invariant
            i <= table.len(),
            forall|j: int| 0 <= j < i ==> #[trigger] table.deep_view()[j] != s@,
        decreases table.len() - i,
    {
        if table[i].len() == s.len() && has_prefix(&table[i], s) {
            assert(table.deep_view()[i as int] =~= s@);
            return true;
        }
        assert(table.deep_view()[i as int] != s@);
        i = i + 1;
    }
    false
}

/// Whether `c` can start an operator; looked up in the table of operator-begin characters.
pub fn is_operator_begin(c: char) -> (r: bool)
    ensures
        r == begins_operator(c),
{
    proof {
        lemma_operator_begin_chars_exact();
    }
    let t = operator_begin_table();
    let mut i: usize = 0;
    while i < t.len()
        invariant
            t@ == operator_begin_chars(),
            i <= t.len(),
            forall|j: int| 0 <= j < i ==> t@[j] != c,
        decreases t.len() - i,
    {
        if t[i] == c {
            return true;
        }
        i = i + 1;
    }
    false
}

/// Whether `base` followed by `c` is a prefix of some operator.
pub fn extends_operator(base: &Vec<char>, c: char) -> (r: bool)
    ensures
        r == prefix_of_entry(base@.push(c), operators()),
{
    let mut s = base.clone();
    s.push(c);
    prefix_of_any(&operator_table(), &s)
}

/// Whether `base` followed by `c` is a prefix of some operator.
pub fn form_valid_operator(base: &str, c: char) -> (r: bool)
    ensures
        r == prefix_of_entry(base@.push(c), operators()),
{
    extends_operator(&chars_of(base), c)
}

/// Whether `s` is spelled exactly like an operator.
pub fn is_valid_operator(s: &str) -> (r: bool)
    ensures
        r == is_operator(s@),
{
    equals_any(&operator_table(), &chars_of(s))
}

/// Whether `base` followed by `c` is a prefix of some reserved word.
pub fn form_valid_reserved_word(base: &str, c: char) -> (r: bool)
    ensures
        r == prefix_of_entry(base@.push(c), reserved_words()),
{
    let mut s = chars_of(base);
    s.push(c);
    prefix_of_any(&reserved_word_table(), &s)
}

/// Whether `s` is spelled exactly like a reserved word.
pub fn is_valid_reserved_word(s: &str) -> (r: bool)
    ensures
        r == is_reserved_word(s@),
{
    equals_any(&reserved_word_table(), &chars_of(s))
}

} // verus!
