//! Laws of the lexer, proved once and for all inputs.

use vstd::prelude::*;

use crate::rules::is_alnum;
use crate::rules::lemma_rule_consumed_bounds;
use crate::rules::rule_table;
use crate::scanner::first_nl;
use crate::scanner::lemma_first_nl_le;
use crate::scanner::lex_spec;
use crate::scanner::scan_line;
use crate::token::TokenView;

verus! {

/// The number of characters that successive applications of the rule table
/// consume on `s`, summed until `s` is exhausted.
pub open spec fn consumed_total(s: Seq<char>) -> int
    decreases s.len(),
    via consumed_total_dec
{
    if s.len() == 0 {
        0
    } else {
        rule_table(s).1 + consumed_total(s.skip(rule_table(s).1))
    }
}

#[via_fn]
proof fn consumed_total_dec(s: Seq<char>) {
    if s.len() > 0 {
        lemma_rule_consumed_bounds(s);
    }
}

/// Total consumption: on any line, the characters consumed by successive
/// rule applications sum to exactly the line's length — no gaps, no
/// overlap. The fallback rule guarantees progress on every character.
pub proof fn lemma_total_consumption(s: Seq<char>)
    ensures
        consumed_total(s) == s.len(),
    decreases s.len(),
{
    if s.len() > 0 {
        lemma_rule_consumed_bounds(s);
        lemma_total_consumption(s.skip(rule_table(s).1));
    }
}

/// Where the first line break of a concatenation lies: at the first line
/// break of `a` if `a` has one, else past `a` at the first line break of
/// `b`.
proof fn lemma_first_nl_concat(a: Seq<char>, b: Seq<char>)
    ensures
        first_nl(a + b) == if first_nl(a) < a.len() {
            first_nl(a) as int
        } else {
            a.len() + first_nl(b) as int
        },
    decreases a.len(),
{
    lemma_first_nl_le(a);
    if a.len() == 0 {
        assert(a + b =~= b);
    } else if a[0] == '\n' {
        assert((a + b)[0] == '\n');
    } else {
        assert((a + b)[0] == a[0]);
        assert((a + b).skip(1) =~= a.skip(1) + b);
        lemma_first_nl_concat(a.skip(1), b);
        lemma_first_nl_le(a.skip(1));
    }
}

/// Line independence: lexing two programs joined by a line break equals
/// lexing each separately and concatenating the token sequences.
pub proof fn lemma_line_break_concat(a: Seq<char>, b: Seq<char>)
    ensures
        lex_spec(a + seq!['\n'] + b) == lex_spec(a) + lex_spec(b),
    decreases a.len(),
{
    let s = a + seq!['\n'] + b;
    lemma_first_nl_le(a);
    lemma_first_nl_concat(a, seq!['\n'] + b);
    assert(first_nl(seq!['\n'] + b) == 0) by {
        assert((seq!['\n'] + b)[0] == '\n');
    }
    if first_nl(a) < a.len() {
        let i = first_nl(a) as int;
        assert(s =~= a + (seq!['\n'] + b));
        assert(first_nl(s) == i);
        assert(s.take(i) =~= a.take(i));
        assert(s.skip(i + 1) =~= a.skip(i + 1) + seq!['\n'] + b);
        lemma_line_break_concat(a.skip(i + 1), b);
        assert(lex_spec(s) == scan_line(a.take(i)) + (lex_spec(a.skip(i + 1)) + lex_spec(b)));
        assert(lex_spec(a) == scan_line(a.take(i)) + lex_spec(a.skip(i + 1)));
        assert(scan_line(a.take(i)) + (lex_spec(a.skip(i + 1)) + lex_spec(b)) =~= (scan_line(
            a.take(i),
        ) + lex_spec(a.skip(i + 1))) + lex_spec(b));
    } else {
        assert(first_nl(a) == a.len());
        assert(s =~= a + (seq!['\n'] + b));
        assert(first_nl(s) == a.len());
        assert(s.take(a.len() as int) =~= a);
        assert(s.skip(a.len() as int + 1) =~= b);
        assert(lex_spec(s) == scan_line(a) + lex_spec(b));
        assert(lex_spec(a) == scan_line(a));
    }
}

/// Fallback guarantee: a single character that no rule recognizes — not
/// alphanumeric, none of the punctuation or operator characters, and not a
/// line break — lexes to exactly one `Empty` token.
pub proof fn lemma_fallback_single(c: char)
    requires
        !is_alnum(c),
        c != '(',
        c != ')',
        c != '{',
        c != '}',
        c != '<',
        c != '>',
        c != '*',
        c != '/',
        c != '+',
        c != '-',
        c != '\n',
    ensures
        lex_spec(seq![c]) == seq![TokenView::Empty],
{
    let s = seq![c];
    assert(s.len() == 1 && s[0] == c);
    assert(first_nl(s) == 1) by {
        assert(first_nl(s.skip(1)) == 0) by {
            assert(s.skip(1).len() == 0);
        }
    }
    assert(rule_table(s) == (seq![TokenView::Empty], 1int));
    assert(s.skip(1).len() == 0);
    assert(scan_line(s.skip(1)) == Seq::<TokenView>::empty());
    assert(lex_spec(s) == scan_line(s));
    assert(scan_line(s) =~= seq![TokenView::Empty]);
}

} // verus!
