use vstd::prelude::*;
use vstd::string::StrSliceExecFns;

use crate::backends::{lower_of, lowercase_term, stem_en_of, stem_term};
use crate::split::{SplitRule, class_of, lemma_run_end, run_end, split, split_tokens_from};
use crate::token::{Token, TokenModel, positions_increasing, positions_nondecreasing, views_of};

verus! {

/// The base segmentation stage of a pipeline.
#[derive(Clone, Copy)]
pub enum BaseTokenizer {
    /// Emits the whole input as one token, unmodified.
    Raw,
    /// Splits on whitespace and punctuation: tokens are the maximal runs of
    /// ASCII letters and digits.
    Simple,
    /// Japanese segmentation: tokens are the maximal runs of one
    /// writing-system class (kanji, hiragana, katakana, Latin alphanumerics).
    Japanese,
}

/// A stage that consumes and re-emits the token stream.
#[derive(Clone, Copy)]
pub enum TokenFilter {
    /// Drops every token whose text is longer than `limit` characters; the
    /// kept tokens keep their positions, nothing is renumbered.
    RemoveLong { limit: usize },
    /// Lowercases the text of each token.
    LowerCaser,
    /// Replaces the text of each token by its English stem.
    Stemmer,
}

/// Model of a pipeline: one base tokenizer and the filters wrapped around it,
/// in order of attachment, the outermost filter last.
pub struct AnalyzerModel {
    pub base: BaseTokenizer,
    pub filters: Seq<TokenFilter>,
}

/// The raw tokenizer's output: the whole input as a single token.
pub open spec fn raw_tokens_model(text: Seq<char>) -> Seq<TokenModel> {
    seq![TokenModel { text: text, offset_from: 0, offset_to: text.len(), position: 0 }]
}

/// What the base stage of a pipeline emits on a text.
pub open spec fn base_tokens_model(base: BaseTokenizer, text: Seq<char>) -> Seq<TokenModel> {
    match base {
        BaseTokenizer::Raw => raw_tokens_model(text),
        BaseTokenizer::Simple => split_tokens_from(text, 0, 0, SplitRule::Alnum),
        BaseTokenizer::Japanese => split_tokens_from(text, 0, 0, SplitRule::Script),
    }
}

/// A token with its text lowercased; span and position untouched.
pub open spec fn lowered(t: TokenModel) -> TokenModel {
    TokenModel { text: lower_of(t.text), ..t }
}

/// A token with its text stemmed; span and position untouched.
pub open spec fn stemmed(t: TokenModel) -> TokenModel {
    TokenModel { text: stem_en_of(t.text), ..t }
}

/// The tokens kept by the length filter, in order, positions untouched.
pub open spec fn drop_long(toks: Seq<TokenModel>, limit: nat) -> Seq<TokenModel>
    decreases toks.len(),
{
    if toks.len() == 0 {
        Seq::empty()
    } else if toks.last().text.len() <= limit {
        drop_long(toks.drop_last(), limit).push(toks.last())
    } else {
        drop_long(toks.drop_last(), limit)
    }
}

/// What one filter stage makes of a token stream.
pub open spec fn apply_filter_model(f: TokenFilter, toks: Seq<TokenModel>) -> Seq<TokenModel> {
    match f {
        TokenFilter::RemoveLong { limit } => drop_long(toks, limit as nat),
        TokenFilter::LowerCaser => toks.map_values(|t: TokenModel| lowered(t)),
        TokenFilter::Stemmer => toks.map_values(|t: TokenModel| stemmed(t)),
    }
}

/// What a chain of filters makes of a token stream, first filter first.
pub open spec fn apply_filters_model(fs: Seq<TokenFilter>, toks: Seq<TokenModel>) -> Seq<
    TokenModel,
>
    decreases fs.len(),
{
    if fs.len() == 0 {
        toks
    } else {
        apply_filters_model(fs.drop_first(), apply_filter_model(fs[0], toks))
    }
}

/// The full tokenization behavior of a pipeline on a text: what the base
/// emits, passed through every filter in order of attachment.
pub open spec fn analyze(m: AnalyzerModel, text: Seq<char>) -> Seq<TokenModel> {
    apply_filters_model(m.filters, base_tokens_model(m.base, text))
}


/// Positions strictly increase in what a splitting rule emits, and none lies
/// below the starting position `pos`.
proof fn lemma_split_positions(text: Seq<char>, i: nat, pos: nat, rule: SplitRule)
    requires
        i <= text.len(),
    ensures
        positions_increasing(split_tokens_from(text, i, pos, rule)),
        forall|k: int|
            0 <= k < split_tokens_from(text, i, pos, rule).len()
                ==> split_tokens_from(text, i, pos, rule)[k].position >= pos,
    decreases text.len() - i,
{
    if i >= text.len() {
    } else if class_of(rule, text[i as int]) == 0 {
        lemma_split_positions(text, i + 1, pos, rule);
    } else {
        let cls = class_of(rule, text[i as int]);
        lemma_run_end(text, i, rule, cls);
        let j = run_end(text, i, rule, cls);
        lemma_split_positions(text, j, pos + 1, rule);
        let s = split_tokens_from(text, i, pos, rule);
        let rest = split_tokens_from(text, j, pos + 1, rule);
        assert(forall|k: int| 1 <= k < s.len() ==> s[k] == rest[k - 1]);
        assert forall|x: int, y: int| 0 <= x < y < s.len() implies s[x].position
            < s[y].position by {
            if x > 0 {
                assert(rest[x - 1].position < rest[y - 1].position);
            } else {
                assert(rest[y - 1].position >= pos + 1);
            }
        }
    }
}

/// Positions strictly increase in what the length filter keeps: it drops
/// tokens, it never renumbers, duplicates or reorders the rest.
proof fn lemma_drop_long_positions(toks: Seq<TokenModel>, limit: nat)
    requires
        positions_increasing(toks),
    ensures
        positions_increasing(drop_long(toks, limit)),
        forall|k: int|
            #![trigger drop_long(toks, limit)[k]]
            0 <= k < drop_long(toks, limit).len() ==> exists|m: int|
                0 <= m < toks.len() && drop_long(toks, limit)[k] == toks[m],
    decreases toks.len(),
{
    if toks.len() == 0 {
    } else {
        let head = toks.drop_last();
        assert(positions_increasing(head));
        lemma_drop_long_positions(head, limit);
        let kept = drop_long(head, limit);
        assert forall|k: int| #![trigger kept[k]] 0 <= k < kept.len() implies exists|m: int|
            0 <= m < toks.len() && kept[k] == toks[m] by {
            let m = choose|m: int| 0 <= m < head.len() && kept[k] == head[m];
            assert(kept[k] == toks[m]);
        }
        if toks.last().text.len() <= limit {
            let grown = kept.push(toks.last());
            assert(toks.last() == toks[toks.len() - 1]);
            assert forall|x: int, y: int| 0 <= x < y < grown.len() implies grown[x].position
                < grown[y].position by {
                if y == grown.len() - 1 {
                    let m = choose|m: int| 0 <= m < head.len() && grown[x] == head[m];
                    assert(toks[m].position < toks[toks.len() - 1].position);
                }
            }
        }
    }
}

/// Positions strictly increase through every filter stage.
proof fn lemma_apply_filter_positions(f: TokenFilter, toks: Seq<TokenModel>)
    requires
        positions_increasing(toks),
    ensures
        positions_increasing(apply_filter_model(f, toks)),
{
    match f {
        TokenFilter::RemoveLong { limit } => {
            lemma_drop_long_positions(toks, limit as nat);
        },
        TokenFilter::LowerCaser => {},
        TokenFilter::Stemmer => {},
    }
}

proof fn lemma_apply_filters_positions(fs: Seq<TokenFilter>, toks: Seq<TokenModel>)
    requires
        positions_increasing(toks),
    ensures
        positions_increasing(apply_filters_model(fs, toks)),
    decreases fs.len(),
{
    if fs.len() > 0 {
        lemma_apply_filter_positions(fs[0], toks);
        lemma_apply_filters_positions(fs.drop_first(), apply_filter_model(fs[0], toks));
    }
}

/// Across one tokenization run, positions strictly increase, hence never
/// decrease: every base emits tokens in position order, and a filter may drop
/// tokens but never duplicates a position it keeps and never reorders.
pub proof fn lemma_analyze_positions(m: AnalyzerModel, text: Seq<char>)
    ensures
        positions_increasing(analyze(m, text)),
        positions_nondecreasing(analyze(m, text)),
{
    match m.base {
        BaseTokenizer::Raw => {},
        BaseTokenizer::Simple => {
            lemma_split_positions(text, 0, 0, SplitRule::Alnum);
        },
        BaseTokenizer::Japanese => {
            lemma_split_positions(text, 0, 0, SplitRule::Script);
        },
    }
    lemma_apply_filters_positions(m.filters, base_tokens_model(m.base, text));
}

/// A pipeline: one base tokenizer wrapped by zero or more filters. Pipelines
/// of different concrete shapes are held uniformly as values of this type,
/// and every pipeline can be duplicated into an independent instance.
pub struct TextAnalyzer {
    base: BaseTokenizer,
    filters: Vec<TokenFilter>,
}

impl View for TextAnalyzer {
    type V = AnalyzerModel;

    closed spec fn view(&self) -> AnalyzerModel {
        AnalyzerModel { base: self.base, filters: self.filters@ }
    }
}

impl TextAnalyzer {
    /// A pipeline consisting of the base tokenizer alone.
    pub fn new(base: BaseTokenizer) -> (a: TextAnalyzer)
        ensures
            a@ == (AnalyzerModel { base, filters: Seq::<TokenFilter>::empty() }),
    {
        TextAnalyzer { base, filters: Vec::new() }
    }

    /// Wrap the pipeline with one more filter; the new filter sees the tokens
    /// after every stage attached so far.
    pub fn filter(self, f: TokenFilter) -> (a: TextAnalyzer)
        ensures
            a@ == (AnalyzerModel { base: self@.base, filters: self@.filters.push(f) }),
    {
        let mut filters = self.filters;
        filters.push(f);
        TextAnalyzer { base: self.base, filters }
    }

    /// An independent instance with the same behavior: later use of either
    /// copy cannot affect the other.
    pub fn duplicate(&self) -> (a: TextAnalyzer)
        ensures
            a@ == self@,
    {
        let mut filters: Vec<TokenFilter> = Vec::new();
        let mut k: usize = 0;
        while k < self.filters.len()
            invariant
                k <= self.filters@.len(),
                filters@ == self.filters@.take(k as int),
            decreases self.filters@.len() - k,
        {
            filters.push(self.filters[k]);
            proof {
                assert(filters@ =~= self.filters@.take(k + 1 as int));
            }
            k += 1;
        }
        proof {
            assert(self.filters@.take(self.filters@.len() as int) =~= self.filters@);
        }
        TextAnalyzer { base: self.base, filters }
    }

    /// Tokenize `text`: the emitted tokens are exactly what the pipeline's
    /// model prescribes. The stream is finite and ends at end of input; a
    /// fresh call is needed per input.
    pub fn token_stream(&self, text: &str) -> (toks: Vec<Token>)
        ensures
            views_of(toks@) == analyze(self@, text@),
    {
        let mut toks = match self.base {
            BaseTokenizer::Raw => raw_split(text),
            BaseTokenizer::Simple => split(text, SplitRule::Alnum),
            BaseTokenizer::Japanese => split(text, SplitRule::Script),
        };
        proof {
            assert(self.filters@.skip(0) =~= self.filters@);
        }
        let mut k: usize = 0;
        while k < self.filters.len()
            invariant
                k <= self.filters@.len(),
                apply_filters_model(self.filters@.skip(k as int), views_of(toks@)) == analyze(
                    self@,
                    text@,
                ),
            decreases self.filters@.len() - k,
        {
            let ghost pre = views_of(toks@);
            toks = apply_filter(self.filters[k], toks);
            proof {
                assert(self.filters@.skip(k as int).drop_first() =~= self.filters@.skip(
                    k + 1 as int,
                ));
                assert(self.filters@.skip(k as int)[0] == self.filters@[k as int]);
            }
            k += 1;
        }
        proof {
            assert(self.filters@.skip(self.filters@.len() as int) =~= Seq::<TokenFilter>::empty());
        }
        toks
    }
}

/// The raw tokenizer: the whole input as one token, no splitting, no case
/// change.
fn raw_split(text: &str) -> (toks: Vec<Token>)
    ensures
        views_of(toks@) == raw_tokens_model(text@),
{
    let n = text.unicode_len();
    let mut toks: Vec<Token> = Vec::new();
    toks.push(Token { text: text.to_owned(), offset_from: 0, offset_to: n, position: 0 });
    proof {
        assert(views_of(toks@) =~= raw_tokens_model(text@));
    }
    toks
}

/// The character length of a token's text.
fn token_char_len(t: &Token) -> (n: usize)
    ensures
        n == t@.text.len(),
{
    t.text.as_str().unicode_len()
}

/// Run one filter stage over a token stream.
fn apply_filter(f: TokenFilter, toks: Vec<Token>) -> (out: Vec<Token>)
    ensures
        views_of(out@) == apply_filter_model(f, views_of(toks@)),
{
    match f {
        TokenFilter::RemoveLong { limit } => apply_remove_long(toks, limit),
        TokenFilter::LowerCaser => apply_lowercase(toks),
        TokenFilter::Stemmer => apply_stem(toks),
    }
}

/// Drop every token longer than `limit` characters; keep the rest in order
/// with their positions.
fn apply_remove_long(toks: Vec<Token>, limit: usize) -> (out: Vec<Token>)
    ensures
        views_of(out@) == drop_long(views_of(toks@), limit as nat),
{
    let mut out: Vec<Token> = Vec::new();
    let mut k: usize = 0;
    proof {
        assert(views_of(toks@.take(0)) =~= Seq::<TokenModel>::empty());
    }
    while k < toks.len()
        invariant
            k <= toks@.len(),
            views_of(out@) == drop_long(views_of(toks@.take(k as int)), limit as nat),
        decreases toks@.len() - k,
    {
        let ghost pre = views_of(toks@.take(k as int));
        let ghost cur = views_of(toks@.take(k + 1 as int));
        proof {
            assert(cur =~= pre.push(toks@[k as int]@));
            assert(cur.drop_last() =~= pre);
            assert(cur.last() == toks@[k as int]@);
        }
        let n = token_char_len(&toks[k]);
        if n <= limit {
            out.push(toks[k].duplicate());
            proof {
                assert(views_of(out@) =~= drop_long(pre, limit as nat).push(toks@[k as int]@));
            }
        }
        k += 1;
    }
    proof {
        assert(toks@.take(toks@.len() as int) =~= toks@);
    }
    out
}

/// Lowercase the text of every token; spans and positions untouched.
fn apply_lowercase(toks: Vec<Token>) -> (out: Vec<Token>)
    ensures
        views_of(out@) == views_of(toks@).map_values(|t: TokenModel| lowered(t)),
{
    let mut out: Vec<Token> = Vec::new();
    let mut k: usize = 0;
    while k < toks.len()
        invariant
            k <= toks@.len(),
            out@.len() == k,
            forall|i: int| 0 <= i < k ==> out@[i]@ == lowered(toks@[i]@),
        decreases toks@.len() - k,
    {
        let t = &toks[k];
        let text = lowercase_term(t.text.as_str());
        out.push(
            Token { text, offset_from: t.offset_from, offset_to: t.offset_to, position: t.position },
        );
        k += 1;
    }
    proof {
        assert(views_of(out@) =~= views_of(toks@).map_values(|t: TokenModel| lowered(t)));
    }
    out
}

/// Stem the text of every token; spans and positions untouched.
fn apply_stem(toks: Vec<Token>) -> (out: Vec<Token>)
    ensures
        views_of(out@) == views_of(toks@).map_values(|t: TokenModel| stemmed(t)),
{
    let mut out: Vec<Token> = Vec::new();
    let mut k: usize = 0;
    while k < toks.len()
        invariant
            k <= toks@.len(),
            out@.len() == k,
            forall|i: int| 0 <= i < k ==> out@[i]@ == stemmed(toks@[i]@),
        decreases toks@.len() - k,
    {
        let t = &toks[k];
        let text = stem_term(t.text.as_str());
        out.push(
            Token { text, offset_from: t.offset_from, offset_to: t.offset_to, position: t.position },
        );
        k += 1;
    }
    proof {
        assert(views_of(out@) =~= views_of(toks@).map_values(|t: TokenModel| stemmed(t)));
    }
    out
}

} // verus!

