use vstd::prelude::*;
use vstd::string::StrSliceExecFns;

use crate::token::{Token, TokenModel, views_of};

verus! {

/// How a base tokenizer classifies characters: tokens are the maximal runs of
/// characters of one class, and class zero separates tokens.
#[derive(Clone, Copy)]
pub enum SplitRule {
    /// One class of token characters: ASCII letters and digits. Everything
    /// else (whitespace, punctuation, symbols) separates tokens.
    Alnum,
    /// Writing-system classes: Latin alphanumerics, hiragana, katakana and
    /// kanji each form their own runs. Everything else separates tokens.
    Script,
}

/// Characters that form tokens for the simple tokenizer: ASCII letters and
/// digits.
pub open spec fn is_token_char(c: char) -> bool {
    ('a' as u32 <= c as u32 && c as u32 <= 'z' as u32) || ('A' as u32 <= c as u32 && c as u32
        <= 'Z' as u32) || ('0' as u32 <= c as u32 && c as u32 <= '9' as u32)
}

/// The writing-system class of a character: Latin alphanumerics, hiragana,
/// katakana (full- and half-width), kanji (with the iteration marks), or
/// none.
pub open spec fn script_of(c: char) -> u32 {
    if is_token_char(c) {
        1
    } else if 0x3040 <= c as u32 && c as u32 <= 0x309F {
        2
    } else if (0x30A0 <= c as u32 && c as u32 <= 0x30FF) || (0xFF66 <= c as u32 && c as u32
        <= 0xFF9F) {
        3
    } else if (0x4E00 <= c as u32 && c as u32 <= 0x9FFF) || (0x3005 <= c as u32 && c as u32
        <= 0x3007) {
        4
    } else {
        0
    }
}

/// The class a splitting rule assigns to a character; class zero separates.
pub open spec fn class_of(rule: SplitRule, c: char) -> u32 {
    match rule {
        SplitRule::Alnum => if is_token_char(c) {
            1
        } else {
            0
        },
        SplitRule::Script => script_of(c),
    }
}

fn class_of_exec(rule: SplitRule, c: char) -> (cls: u32)
    ensures
        cls == class_of(rule, c),
{
    let u = c as u32;
    let alnum = ('a' as u32 <= u && u <= 'z' as u32) || ('A' as u32 <= u && u <= 'Z' as u32) || (
    '0' as u32 <= u && u <= '9' as u32);
    match rule {
        SplitRule::Alnum => if alnum {
            1
        } else {
            0
        },
        SplitRule::Script => if alnum {
            1
        } else if 0x3040 <= u && u <= 0x309F {
            2
        } else if (0x30A0 <= u && u <= 0x30FF) || (0xFF66 <= u && u <= 0xFF9F) {
            3
        } else if (0x4E00 <= u && u <= 0x9FFF) || (0x3005 <= u && u <= 0x3007) {
            4
        } else {
            0
        },
    }
}

/// The first index at or after `i` that leaves the run of class `cls`.
pub open spec fn run_end(text: Seq<char>, i: nat, rule: SplitRule, cls: u32) -> nat
    decreases text.len() - i,
    when i <= text.len()
{
    if i >= text.len() || class_of(rule, text[i as int]) != cls {
        i
    } else {
        run_end(text, i + 1, rule, cls)
    }
}

pub proof fn lemma_run_end(text: Seq<char>, i: nat, rule: SplitRule, cls: u32)
    requires
        i <= text.len(),
    ensures
        i <= run_end(text, i, rule, cls) <= text.len(),
        i < text.len() && class_of(rule, text[i as int]) == cls ==> i < run_end(
            text,
            i,
            rule,
            cls,
        ),
    decreases text.len() - i,
{
    if i < text.len() && class_of(rule, text[i as int]) == cls {
        lemma_run_end(text, i + 1, rule, cls);
    }
}

proof fn lemma_run_end_is(text: Seq<char>, i: nat, j: nat, rule: SplitRule, cls: u32)
    requires
        i <= j <= text.len(),
        forall|k: int| i <= k < j ==> class_of(rule, text[k]) == cls,
        j == text.len() || class_of(rule, text[j as int]) != cls,
    ensures
        run_end(text, i, rule, cls) == j,
    decreases j - i,
{
    if i < j {
        lemma_run_end_is(text, i + 1, j, rule, cls);
    }
}

/// The tokens a splitting rule produces scanning from character index `i`,
/// numbering the next token `pos`: the maximal runs of one non-separator
/// class, each carrying its character span in the input and its position in
/// the stream.
pub open spec fn split_tokens_from(text: Seq<char>, i: nat, pos: nat, rule: SplitRule) -> Seq<
    TokenModel,
>
    decreases text.len() - i,
    when i <= text.len()
    via split_tokens_from_decreases
{
    if i >= text.len() {
        Seq::empty()
    } else if class_of(rule, text[i as int]) == 0 {
        split_tokens_from(text, i + 1, pos, rule)
    } else {
        let j = run_end(text, i, rule, class_of(rule, text[i as int]));
        seq![
            TokenModel {
                text: text.subrange(i as int, j as int),
                offset_from: i,
                offset_to: j,
                position: pos,
            },
        ] + split_tokens_from(text, j, pos + 1, rule)
    }
}

#[via_fn]
proof fn split_tokens_from_decreases(text: Seq<char>, i: nat, pos: nat, rule: SplitRule) {
    if i < text.len() && class_of(rule, text[i as int]) != 0 {
        lemma_run_end(text, i, rule, class_of(rule, text[i as int]));
    }
}

/// Split `text` by the given rule into maximal runs of one class, with true
/// character offsets and consecutive positions starting at zero.
pub fn split(text: &str, rule: SplitRule) -> (toks: Vec<Token>)
    ensures
        views_of(toks@) == split_tokens_from(text@, 0, 0, rule),
{
    let n = text.unicode_len();
    let mut toks: Vec<Token> = Vec::new();
    let mut i: usize = 0;
    proof {
        assert(views_of(toks@) + split_tokens_from(text@, 0, 0, rule) =~= split_tokens_from(
            text@,
            0,
            0,
            rule,
        ));
    }
    while i < n
        invariant
            i <= n,
            n == text@.len(),
            toks@.len() <= i,
            views_of(toks@) + split_tokens_from(text@, i as nat, toks@.len() as nat, rule)
                == split_tokens_from(text@, 0, 0, rule),
        decreases n - i,
    {
        let cls = class_of_exec(rule, text.get_char(i));
        if cls != 0 {
            let ghost prev = toks@;
            let mut j: usize = i + 1;
            while j < n && class_of_exec(rule, text.get_char(j)) == cls
                invariant
                    i < j <= n,
                    n == text@.len(),
                    forall|k: int| i <= k < j ==> class_of(rule, text@[k]) == cls,
                    class_of(rule, text@[i as int]) == cls,
                decreases n - j,
            {
                j += 1;
            }
            proof {
                lemma_run_end_is(text@, i as nat, j as nat, rule, cls);
            }
            let piece = text.substring_char(i, j);
            let tok = Token {
                text: piece.to_owned(),
                offset_from: i,
                offset_to: j,
                position: toks.len(),
            };
            toks.push(tok);
            proof {
                let ghost tm = TokenModel {
                    text: text@.subrange(i as int, j as int),
                    offset_from: i as nat,
                    offset_to: j as nat,
                    position: prev.len(),
                };
                assert(views_of(toks@) =~= views_of(prev).push(tm));
                assert(split_tokens_from(text@, i as nat, prev.len(), rule) == seq![tm]
                    + split_tokens_from(text@, j as nat, prev.len() + 1, rule));
                assert(views_of(prev).push(tm) + split_tokens_from(
                    text@,
                    j as nat,
                    prev.len() + 1,
                    rule,
                ) =~= views_of(prev) + (seq![tm] + split_tokens_from(
                    text@,
                    j as nat,
                    prev.len() + 1,
                    rule,
                )));
            }
            i = j;
        } else {
            i += 1;
        }
    }
    proof {
        assert(split_tokens_from(text@, i as nat, toks@.len() as nat, rule) =~= Seq::<
            TokenModel,
        >::empty());
        assert(views_of(toks@) + Seq::<TokenModel>::empty() =~= views_of(toks@));
    }
    toks
}

} // verus!
