//! The rule table: the ordered patterns recognized at the start of the
//! remaining input, and what each match produces.
//!
//! [`rule_table`] is the mathematical statement of the table; [`next_token`]
//! is the executable engine, proved to agree with it. The rules, first match
//! wins:
//!
//! 1. a keyword (`if`, `then`, `else`, `endif`, `print`, `while`, `do`,
//!    `enddo`, `int`) followed by a non-alphanumeric character or the end of
//!    the input; the boundary character is not consumed;
//! 2. a punctuation character `(`, `)`, `{`, `}`;
//! 3. a relational operator, the two-character forms `<=`, `==`, `>=`, `!=`
//!    preferred over `<` and `>`;
//! 4. a multiplicative operator `*` or `/`;
//! 5. an additive operator `+` or `-`;
//! 6. a run of alphanumeric characters, decomposed character by character,
//!    the terminating boundary character consumed along with the run;
//! 7. otherwise a single `Empty` token consuming one character.

use vstd::prelude::*;
use vstd::string::*;

use crate::token::Token;
use crate::token::TokenView;
use crate::token::token_views;

verus! {

/// An ASCII decimal digit.
pub open spec fn is_digit(c: char) -> bool {
    '0' as u32 <= c as u32 && c as u32 <= '9' as u32
}

/// An ASCII letter.
pub open spec fn is_alpha(c: char) -> bool {
    ('a' as u32 <= c as u32 && c as u32 <= 'z' as u32) || ('A' as u32 <= c as u32 && c as u32
        <= 'Z' as u32)
}

/// An ASCII alphanumeric character: the class that forms identifier/number
/// runs and must not follow a keyword.
pub open spec fn is_alnum(c: char) -> bool {
    is_alpha(c) || is_digit(c)
}

/// Position `k` of `s` is a valid boundary: the input ends there, or the
/// character there is not alphanumeric.
pub open spec fn boundary_ok(s: Seq<char>, k: int) -> bool {
    k == s.len() || !is_alnum(s[k])
}

/// The keyword `kw` matches at the start of `s`: `s` begins with `kw` and a
/// valid boundary follows it.
pub open spec fn kw_match(s: Seq<char>, kw: Seq<char>) -> bool {
    kw.len() <= s.len() && s.take(kw.len() as int) == kw && boundary_ok(s, kw.len() as int)
}

/// The length of the maximal alphanumeric prefix of `s`.
pub open spec fn run_len(s: Seq<char>) -> nat
    decreases s.len(),
{
    if s.len() == 0 || !is_alnum(s[0]) {
        0
    } else {
        (1 + run_len(s.skip(1))) as nat
    }
}

/// The single-character token that stands for `c` inside a decomposed run.
pub open spec fn class_token(c: char) -> TokenView {
    if is_alpha(c) {
        TokenView::Letter(c)
    } else if is_digit(c) {
        TokenView::Digit(c)
    } else {
        TokenView::Empty
    }
}

/// The tokens emitted for a matched run `s`: a leading `Empty` marks the
/// start, then one token per character of the run.
pub open spec fn decomp(s: Seq<char>) -> Seq<TokenView> {
    seq![TokenView::Empty] + s.map_values(|c: char| class_token(c))
}

/// The rule table applied to the non-empty remainder `s` of a line: the
/// tokens the first matching rule produces, and how many characters it
/// consumes.
pub open spec fn rule_table(s: Seq<char>) -> (Seq<TokenView>, int) {
    if kw_match(s, seq!['i', 'f']) {
        (seq![TokenView::If], 2)
    } else if kw_match(s, seq!['t', 'h', 'e', 'n']) {
        (seq![TokenView::Then], 4)
    } else if kw_match(s, seq!['e', 'l', 's', 'e']) {
        (seq![TokenView::Else], 4)
    } else if kw_match(s, seq!['e', 'n', 'd', 'i', 'f']) {
        (seq![TokenView::EndIf], 5)
    } else if kw_match(s, seq!['p', 'r', 'i', 'n', 't']) {
        (seq![TokenView::Print], 5)
    } else if kw_match(s, seq!['w', 'h', 'i', 'l', 'e']) {
        (seq![TokenView::While], 5)
    } else if kw_match(s, seq!['d', 'o']) {
        (seq![TokenView::Do], 2)
    } else if kw_match(s, seq!['e', 'n', 'd', 'd', 'o']) {
        (seq![TokenView::EndDo], 5)
    } else if kw_match(s, seq!['i', 'n', 't']) {
        (seq![TokenView::Int], 3)
    } else if s.len() > 0 && s[0] == '(' {
        (seq![TokenView::OpenParen], 1)
    } else if s.len() > 0 && s[0] == ')' {
        (seq![TokenView::CloseParen], 1)
    } else if s.len() > 0 && s[0] == '{' {
        (seq![TokenView::OpenBrace], 1)
    } else if s.len() > 0 && s[0] == '}' {
        (seq![TokenView::CloseBrace], 1)
    } else if s.len() >= 2 && (s[0] == '<' || s[0] == '=' || s[0] == '>' || s[0] == '!') && s[1]
        == '=' {
        (seq![TokenView::RelOp(s.take(2))], 2)
    } else if s.len() > 0 && (s[0] == '<' || s[0] == '>') {
        (seq![TokenView::RelOp(s.take(1))], 1)
    } else if s.len() > 0 && (s[0] == '*' || s[0] == '/') {
        (seq![TokenView::MultOp(s[0])], 1)
    } else if s.len() > 0 && (s[0] == '+' || s[0] == '-') {
        (seq![TokenView::AddingOp(s[0])], 1)
    } else if s.len() > 0 && is_alnum(s[0]) {
        let m = if run_len(s) < s.len() {
            run_len(s) as int + 1
        } else {
            run_len(s) as int
        };
        (decomp(s.take(m)), m)
    } else {
        (seq![TokenView::Empty], 1)
    }
}

/// The maximal alphanumeric prefix is no longer than the input.
pub proof fn lemma_run_len_le(s: Seq<char>)
    ensures
        run_len(s) <= s.len(),
    decreases s.len(),
{
    if s.len() > 0 && is_alnum(s[0]) {
        lemma_run_len_le(s.skip(1));
    }
}

/// On a non-empty input the rule table always consumes at least one and at
/// most all of the remaining characters.
pub proof fn lemma_rule_consumed_bounds(s: Seq<char>)
    requires
        s.len() > 0,
    ensures
        1 <= rule_table(s).1 <= s.len(),
{
    lemma_run_len_le(s);
}

/// `run_len` is the position where an alphanumeric scan stops: every
/// character before `r` is alphanumeric and `r` is the end or not
/// alphanumeric.
proof fn lemma_run_len_at(s: Seq<char>, r: nat)
    requires
        r <= s.len(),
        forall|k: int| 0 <= k < r ==> is_alnum(s[k]),
        r == s.len() || !is_alnum(s[r as int]),
    ensures
        run_len(s) == r,
    decreases r,
{
    if r == 0 {
    } else {
        assert(is_alnum(s[0]));
        assert forall|k: int| 0 <= k < r - 1 implies is_alnum(s.skip(1)[k]) by {
            assert(s.skip(1)[k] == s[k + 1]);
        }
        if r < s.len() {
            assert(s.skip(1)[r - 1] == s[r as int]);
        }
        lemma_run_len_at(s.skip(1), (r - 1) as nat);
    }
}

fn alpha(c: char) -> (b: bool)
    ensures
        b == is_alpha(c),
{
    let u = c as u32;
    ('a' as u32 <= u && u <= 'z' as u32) || ('A' as u32 <= u && u <= 'Z' as u32)
}

fn digit(c: char) -> (b: bool)
    ensures
        b == is_digit(c),
{
    let u = c as u32;
    '0' as u32 <= u && u <= '9' as u32
}

fn alnum(c: char) -> (b: bool)
    ensures
        b == is_alnum(c),
{
    alpha(c) || digit(c)
}

fn class_of(c: char) -> (t: Token)
    ensures
        t@ == class_token(c),
{
    if alpha(c) {
        Token::Letter(c)
    } else if digit(c) {
        Token::Digit(c)
    } else {
        Token::Empty
    }
}

/// Does the two-character keyword `c0 c1` match at `start` of the line
/// `line[start..end]`, with its boundary?
fn kw2(line: &Vec<char>, start: usize, end: usize, c0: char, c1: char) -> (b: bool)
    requires
        start <= end <= line@.len(),
    ensures
        b == kw_match(line@.subrange(start as int, end as int), seq![c0, c1]),
{
    let ghost s = line@.subrange(start as int, end as int);
    proof {
        assert(seq![c0, c1].len() == 2);
        if s.len() >= 2 {
            assert(s.take(2) =~= seq![c0, c1] <==> (s[0] == c0 && s[1] == c1)) by {
                assert(s.take(2)[0] == s[0] && s.take(2)[1] == s[1]);
                assert(seq![c0, c1][0] == c0 && seq![c0, c1][1] == c1);
            }
        }
    }
    if end - start < 2 {
        return false;
    }
    if line[start] == c0 && line[start + 1] == c1 {
        start + 2 == end || !alnum(line[start + 2])
    } else {
        false
    }
}

/// Does the three-character keyword `c0 c1 c2` match at `start`?
fn kw3(line: &Vec<char>, start: usize, end: usize, c0: char, c1: char, c2: char) -> (b: bool)
    requires
        start <= end <= line@.len(),
    ensures
        b == kw_match(line@.subrange(start as int, end as int), seq![c0, c1, c2]),
{
    let ghost s = line@.subrange(start as int, end as int);
    proof {
        assert(seq![c0, c1, c2].len() == 3);
        if s.len() >= 3 {
            assert(s.take(3) =~= seq![c0, c1, c2] <==> (s[0] == c0 && s[1] == c1 && s[2] == c2))
                by {
                assert(s.take(3)[0] == s[0] && s.take(3)[1] == s[1] && s.take(3)[2] == s[2]);
                assert(seq![c0, c1, c2][0] == c0 && seq![c0, c1, c2][1] == c1 && seq![c0, c1, c2][2]
                    == c2);
            }
        }
    }
    if end - start < 3 {
        return false;
    }
    if line[start] == c0 && line[start + 1] == c1 && line[start + 2] == c2 {
        start + 3 == end || !alnum(line[start + 3])
    } else {
        false
    }
}

/// Does the four-character keyword `c0 c1 c2 c3` match at `start`?
fn kw4(
    line: &Vec<char>,
    start: usize,
    end: usize,
    c0: char,
    c1: char,
    c2: char,
    c3: char,
) -> (b: bool)
    requires
        start <= end <= line@.len(),
    ensures
        b == kw_match(line@.subrange(start as int, end as int), seq![c0, c1, c2, c3]),
{
    let ghost s = line@.subrange(start as int, end as int);
    proof {
        assert(seq![c0, c1, c2, c3].len() == 4);
        if s.len() >= 4 {
            assert(s.take(4) =~= seq![c0, c1, c2, c3] <==> (s[0] == c0 && s[1] == c1 && s[2] == c2
                && s[3] == c3)) by {
                assert(s.take(4)[0] == s[0] && s.take(4)[1] == s[1] && s.take(4)[2] == s[2]
                    && s.take(4)[3] == s[3]);
                assert(seq![c0, c1, c2, c3][0] == c0 && seq![c0, c1, c2, c3][1] == c1 && seq![c0, c1, c2, c3][2]
                    == c2 && seq![c0, c1, c2, c3][3] == c3);
            }
        }
    }
    if end - start < 4 {
        return false;
    }
    if line[start] == c0 && line[start + 1] == c1 && line[start + 2] == c2 && line[start + 3]
        == c3 {
        start + 4 == end || !alnum(line[start + 4])
    } else {
        false
    }
}

/// Does the five-character keyword `c0 c1 c2 c3 c4` match at `start`?
fn kw5(
    line: &Vec<char>,
    start: usize,
    end: usize,
    c0: char,
    c1: char,
    c2: char,
    c3: char,
    c4: char,
) -> (b: bool)
    requires
        start <= end <= line@.len(),
    ensures
        b == kw_match(line@.subrange(start as int, end as int), seq![c0, c1, c2, c3, c4]),
{
    let ghost s = line@.subrange(start as int, end as int);
    proof {
        assert(seq![c0, c1, c2, c3, c4].len() == 5);
        if s.len() >= 5 {
            assert(s.take(5) =~= seq![c0, c1, c2, c3, c4] <==> (s[0] == c0 && s[1] == c1 && s[2]
                == c2 && s[3] == c3 && s[4] == c4)) by {
                assert(s.take(5)[0] == s[0] && s.take(5)[1] == s[1] && s.take(5)[2] == s[2]
                    && s.take(5)[3] == s[3] && s.take(5)[4] == s[4]);
                assert(seq![c0, c1, c2, c3, c4][0] == c0 && seq![c0, c1, c2, c3, c4][1] == c1
                    && seq![c0, c1, c2, c3, c4][2] == c2 && seq![c0, c1, c2, c3, c4][3] == c3
                    && seq![c0, c1, c2, c3, c4][4] == c4);
            }
        }
    }
    if end - start < 5 {
        return false;
    }
    if line[start] == c0 && line[start + 1] == c1 && line[start + 2] == c2 && line[start + 3] == c3
        && line[start + 4] == c4 {
        start + 5 == end || !alnum(line[start + 5])
    } else {
        false
    }
}

/// A vector holding the one token `t`.
fn single(t: Token) -> (v: Vec<Token>)
    ensures
        token_views(v@) == seq![t@],
{
    let mut v: Vec<Token> = Vec::new();
    v.push(t);
    proof {
        assert(v@ =~= seq![t]);
        assert(token_views(v@) =~= seq![t@]);
    }
    v
}

/// Identifies the next token(s) in the line remainder `line[start..end]`:
/// returns what the first matching rule of the table produces and how many
/// characters it consumes, exactly as [`rule_table`] states.
pub(crate) fn next_token(line: &Vec<char>, start: usize, end: usize) -> (r: (Vec<Token>, usize))
    requires
        start < end <= line@.len(),
    ensures
        token_views(r.0@) == rule_table(line@.subrange(start as int, end as int)).0,
        r.1 as int == rule_table(line@.subrange(start as int, end as int)).1,
{
    let ghost s = line@.subrange(start as int, end as int);
    if kw2(line, start, end, 'i', 'f') {
        (single(Token::If), 2)
    } else if kw4(line, start, end, 't', 'h', 'e', 'n') {
        (single(Token::Then), 4)
    } else if kw4(line, start, end, 'e', 'l', 's', 'e') {
        (single(Token::Else), 4)
    } else if kw5(line, start, end, 'e', 'n', 'd', 'i', 'f') {
        (single(Token::EndIf), 5)
    } else if kw5(line, start, end, 'p', 'r', 'i', 'n', 't') {
        (single(Token::Print), 5)
    } else if kw5(line, start, end, 'w', 'h', 'i', 'l', 'e') {
        (single(Token::While), 5)
    } else if kw2(line, start, end, 'd', 'o') {
        (single(Token::Do), 2)
    } else if kw5(line, start, end, 'e', 'n', 'd', 'd', 'o') {
        (single(Token::EndDo), 5)
    } else if kw3(line, start, end, 'i', 'n', 't') {
        (single(Token::Int), 3)
    } else {
        let c0 = line[start];
        if c0 == '(' {
            (single(Token::OpenParen), 1)
        } else if c0 == ')' {
            (single(Token::CloseParen), 1)
        } else if c0 == '{' {
            (single(Token::OpenBrace), 1)
        } else if c0 == '}' {
            (single(Token::CloseBrace), 1)
        } else if end - start >= 2 && (c0 == '<' || c0 == '=' || c0 == '>' || c0 == '!') && line[
            start + 1] == '=' {
            let t = if c0 == '<' {
                String::from_str("<=")
            } else if c0 == '=' {
                String::from_str("==")
            } else if c0 == '>' {
                String::from_str(">=")
            } else {
                String::from_str("!=")
            };
            proof {
                reveal_strlit("<=");
                reveal_strlit("==");
                reveal_strlit(">=");
                reveal_strlit("!=");
                assert(t@ =~= s.take(2));
            }
            (single(Token::RelOp(t)), 2)
        } else if c0 == '<' || c0 == '>' {
            let t = if c0 == '<' {
                String::from_str("<")
            } else {
                String::from_str(">")
            };
            proof {
                reveal_strlit("<");
                reveal_strlit(">");
                assert(t@ =~= s.take(1));
            }
            (single(Token::RelOp(t)), 1)
        } else if c0 == '*' || c0 == '/' {
            (single(Token::MultOp(c0)), 1)
        } else if c0 == '+' || c0 == '-' {
            (single(Token::AddingOp(c0)), 1)
        } else if alnum(c0) {
            // measure the alphanumeric run
            let mut j: usize = start + 1;
            loop
                invariant
                    start < j <= end <= line@.len(),
                    forall|k: int| start <= k < j ==> is_alnum(line@[k]),
                ensures
                    start < j <= end,
                    forall|k: int| start <= k < j ==> is_alnum(line@[k]),
                    j == end || !is_alnum(line@[j as int]),
                decreases end - j,
            {
                if j == end {
                    break;
                }
                if !alnum(line[j]) {
                    break;
                }
                j += 1;
            }
            proof {
                assert forall|k: int| 0 <= k < j - start implies is_alnum(s[k]) by {
                    assert(s[k] == line@[start + k]);
                }
                if j < end {
                    assert(s[j - start] == line@[j as int]);
                }
                lemma_run_len_at(s, (j - start) as nat);
            }
            // the consumed span includes the boundary character, if any
            let consumed: usize = if j < end {
                j + 1 - start
            } else {
                j - start
            };
            let mut toks: Vec<Token> = Vec::new();
            toks.push(Token::Empty);
            proof {
                assert(token_views(toks@) =~= decomp(s.take(0)));
            }
            let mut k: usize = 0;
            while k < consumed
                invariant
                    k <= consumed,
                    consumed <= end - start,
                    start < end <= line@.len(),
                    s == line@.subrange(start as int, end as int),
                    token_views(toks@) == decomp(s.take(k as int)),
                decreases consumed - k,
            {
                let t = class_of(line[start + k]);
                toks.push(t);
                proof {
                    assert(s[k as int] == line@[start + k]);
                    assert(token_views(toks@) =~= decomp(s.take(k as int)).push(class_token(
                        s[k as int],
                    )));
                    assert(decomp(s.take(k as int + 1)) =~= decomp(s.take(k as int)).push(
                        class_token(s[k as int]),
                    ));
                }
                k += 1;
            }
            (toks, consumed)
        } else {
            (single(Token::Empty), 1)
        }
    }
}

} // verus!
