//! The scanner: drives the rule table across a whole line, and across all
//! lines of the input.
//!
//! [`lex_spec`] is the mathematical statement of lexing: split the input on
//! line breaks, scan each line with [`scan_line`], and concatenate the
//! results. [`lex`] is the executable lexer, proved to agree with it.

use vstd::prelude::*;
use vstd::string::*;

use crate::rules::lemma_rule_consumed_bounds;
use crate::rules::next_token;
use crate::rules::rule_table;
use crate::token::Token;
use crate::token::TokenView;
use crate::token::lemma_token_views_concat;
use crate::token::token_views;

verus! {

/// The index of the first line break in `s`, or `s.len()` when there is
/// none.
pub open spec fn first_nl(s: Seq<char>) -> nat
    decreases s.len(),
{
    if s.len() == 0 {
        0
    } else if s[0] == '\n' {
        0
    } else {
        (1 + first_nl(s.skip(1))) as nat
    }
}

/// `first_nl` never points past the end of the input.
pub proof fn lemma_first_nl_le(s: Seq<char>)
    ensures
        first_nl(s) <= s.len(),
    decreases s.len(),
{
    if s.len() > 0 && s[0] != '\n' {
        lemma_first_nl_le(s.skip(1));
    }
}

/// `first_nl` is the position where a scan for a line break stops: no line
/// break lies before `i`, and `i` is the end or a line break.
pub proof fn lemma_first_nl_at(s: Seq<char>, i: nat)
    requires
        i <= s.len(),
        forall|j: int| 0 <= j < i ==> s[j] != '\n',
        i == s.len() || s[i as int] == '\n',
    ensures
        first_nl(s) == i,
    decreases i,
{
    if i > 0 {
        assert(s[0] != '\n');
        assert forall|j: int| 0 <= j < i - 1 implies s.skip(1)[j] != '\n' by {
            assert(s.skip(1)[j] == s[j + 1]);
        }
        if i < s.len() {
            assert(s.skip(1)[i - 1] == s[i as int]);
        }
        lemma_first_nl_at(s.skip(1), (i - 1) as nat);
    }
}

/// The tokens of one line: apply the rule table to the remainder, append
/// what it produces, advance by what it consumes, repeat until the line is
/// exhausted.
pub open spec fn scan_line(s: Seq<char>) -> Seq<TokenView>
    decreases s.len(),
    via scan_line_dec
{
    if s.len() == 0 {
        Seq::empty()
    } else {
        rule_table(s).0 + scan_line(s.skip(rule_table(s).1))
    }
}

#[via_fn]
proof fn scan_line_dec(s: Seq<char>) {
    if s.len() > 0 {
        lemma_rule_consumed_bounds(s);
    }
}

/// The tokens of a whole input: the tokens of the text up to the first line
/// break, then the tokens of what follows it. Line breaks themselves leave
/// no trace in the output.
pub open spec fn lex_spec(s: Seq<char>) -> Seq<TokenView>
    decreases s.len(),
    via lex_spec_dec
{
    let i = first_nl(s) as int;
    if i < s.len() {
        scan_line(s.take(i)) + lex_spec(s.skip(i + 1))
    } else {
        scan_line(s)
    }
}

#[via_fn]
proof fn lex_spec_dec(s: Seq<char>) {
    lemma_first_nl_le(s);
}

/// The characters of `code`, in order.
fn chars_of(code: &str) -> (r: Vec<char>)
    ensures
        r@ == code@,
{
    let n = code.unicode_len();
    let mut r: Vec<char> = Vec::new();
    let mut i: usize = 0;
    while i < n
        invariant
            i <= n,
            n == code@.len(),
            r@ == code@.take(i as int),
        decreases n - i,
    {
        r.push(code.get_char(i));
        i += 1;
        proof {
            assert(r@ =~= code@.take(i as int));
        }
    }
    proof {
        assert(r@ =~= code@);
    }
    r
}

/// Lexes a block of text into its token sequence.
///
/// The input is split on line breaks; each line is scanned left to right
/// with the rule table, and the lines' token sequences are concatenated in
/// input order. The result is exactly [`lex_spec`] of the input.
pub fn lex(code: &str) -> (r: Vec<Token>)
    ensures
        token_views(r@) == lex_spec(code@),
{
    let chars = chars_of(code);
    let n = chars.len();
    let mut result: Vec<Token> = Vec::new();
    let mut pos: usize = 0;
    proof {
        assert(chars@.skip(0) =~= chars@);
        assert(token_views(result@) =~= Seq::<TokenView>::empty());
    }
    loop
        invariant_except_break
            token_views(result@) + lex_spec(chars@.skip(pos as int)) == lex_spec(code@),
        invariant
            pos <= n,
            n == chars@.len(),
            chars@ == code@,
        ensures
            token_views(result@) == lex_spec(code@),
        decreases n - pos,
    {
        // find the end of the current line
        let mut nl: usize = pos;
        while nl < n && chars[nl] != '\n'
            invariant
                pos <= nl <= n,
                n == chars@.len(),
                forall|j: int| pos <= j < nl ==> chars@[j] != '\n',
            decreases n - nl,
        {
            nl += 1;
        }
        let ghost rest = chars@.skip(pos as int);
        let ghost line = chars@.subrange(pos as int, nl as int);
        proof {
            assert forall|j: int| 0 <= j < nl - pos implies rest[j] != '\n' by {
                assert(rest[j] == chars@[pos + j]);
            }
            if nl < n {
                assert(rest[nl - pos] == chars@[nl as int]);
            }
            lemma_first_nl_at(rest, (nl - pos) as nat);
            assert(rest.take(nl - pos) =~= line);
        }
        // scan the line
        let ghost res0 = result@;
        proof {
            assert(line.skip(0) =~= line);
        }
        let mut i: usize = pos;
        while i < nl
            invariant
                pos <= i <= nl <= n,
                n == chars@.len(),
                line == chars@.subrange(pos as int, nl as int),
                token_views(result@) + scan_line(line.skip(i - pos)) == token_views(res0)
                    + scan_line(line),
            decreases nl - i,
        {
            let ghost suffix = line.skip(i - pos);
            proof {
                assert(suffix =~= chars@.subrange(i as int, nl as int));
                lemma_rule_consumed_bounds(suffix);
            }
            let (mut ts, len) = next_token(&chars, i, nl);
            proof {
                lemma_token_views_concat(result@, ts@);
                assert(suffix.skip(rule_table(suffix).1) =~= line.skip(i + len - pos));
            }
            result.append(&mut ts);
            i += len;
        }
        proof {
            assert(line.skip(nl - pos) =~= Seq::<char>::empty());
            assert(token_views(result@) == token_views(res0) + scan_line(line));
        }
        if nl == n {
            proof {
                assert(first_nl(rest) == rest.len());
                assert(rest =~= line);
            }
            break;
        }
        proof {
            assert(first_nl(rest) < rest.len());
            assert(rest.skip(nl - pos + 1) =~= chars@.skip(nl as int + 1));
            assert(lex_spec(rest) == scan_line(line) + lex_spec(chars@.skip(nl as int + 1)));
            assert(token_views(res0) + (scan_line(line) + lex_spec(chars@.skip(nl as int + 1)))
                =~= (token_views(res0) + scan_line(line)) + lex_spec(chars@.skip(nl as int + 1)));
        }
        pos = nl + 1;
    }
    result
}

} // verus!
