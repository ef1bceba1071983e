use vstd::prelude::*;
use vstd::rwlock::{RwLock, RwLockPredicate};

use std::sync::Arc;

use crate::pipeline::{AnalyzerModel, BaseTokenizer, TextAnalyzer, TokenFilter};
use crate::registry::RegistryMap;

verus! {

/// The lock on the shared registry admits exactly its well-formed states.
pub struct RegistryPred;

impl RwLockPredicate<RegistryMap> for RegistryPred {
    open spec fn inv(self, v: RegistryMap) -> bool {
        v.wf()
    }
}

/// Model of the pre-populated registry: the four default pipeline names and
/// the composition each one carries.
pub open spec fn default_registry_model() -> Map<Seq<char>, AnalyzerModel> {
    Map::<Seq<char>, AnalyzerModel>::empty().insert(
        "raw"@,
        AnalyzerModel { base: BaseTokenizer::Raw, filters: Seq::empty() },
    ).insert(
        "default"@,
        AnalyzerModel {
            base: BaseTokenizer::Simple,
            filters: seq![TokenFilter::RemoveLong { limit: 40 }, TokenFilter::LowerCaser],
        },
    ).insert(
        "en_stem"@,
        AnalyzerModel {
            base: BaseTokenizer::Simple,
            filters: seq![
                TokenFilter::RemoveLong { limit: 40 },
                TokenFilter::LowerCaser,
                TokenFilter::Stemmer,
            ],
        },
    ).insert(
        "ja"@,
        AnalyzerModel {
            base: BaseTokenizer::Japanese,
            filters: seq![TokenFilter::RemoveLong { limit: 40 }],
        },
    )
}

/// The pre-populated registry:
///  * raw: the whole input as one token, untouched;
///  * default: split on whitespace and punctuation, drop tokens longer than
///    40 characters, lowercase;
///  * en_stem: default plus English stemming;
///  * ja: Japanese segmentation, drop tokens longer than 40 characters.
pub fn default_registry() -> (reg: RegistryMap)
    ensures
        reg.wf(),
        reg@ == default_registry_model(),
{
    let mut reg = RegistryMap::new();
    proof {
        reveal_strlit("raw");
        reveal_strlit("default");
        reveal_strlit("en_stem");
        reveal_strlit("ja");
    }
    reg.insert("raw", TextAnalyzer::new(BaseTokenizer::Raw));
    reg.insert(
        "default",
        TextAnalyzer::new(BaseTokenizer::Simple).filter(
            TokenFilter::RemoveLong { limit: 40 },
        ).filter(TokenFilter::LowerCaser),
    );
    reg.insert(
        "en_stem",
        TextAnalyzer::new(BaseTokenizer::Simple).filter(
            TokenFilter::RemoveLong { limit: 40 },
        ).filter(TokenFilter::LowerCaser).filter(TokenFilter::Stemmer),
    );
    reg.insert(
        "ja",
        TextAnalyzer::new(BaseTokenizer::Japanese).filter(TokenFilter::RemoveLong { limit: 40 }),
    );
    proof {
        assert(Seq::<TokenFilter>::empty().push(TokenFilter::RemoveLong { limit: 40 }).push(
            TokenFilter::LowerCaser,
        ) =~= seq![TokenFilter::RemoveLong { limit: 40 }, TokenFilter::LowerCaser]);
        assert(Seq::<TokenFilter>::empty().push(TokenFilter::RemoveLong { limit: 40 }).push(
            TokenFilter::LowerCaser,
        ).push(TokenFilter::Stemmer) =~= seq![
            TokenFilter::RemoveLong { limit: 40 },
            TokenFilter::LowerCaser,
            TokenFilter::Stemmer,
        ]);
        assert(Seq::<TokenFilter>::empty().push(TokenFilter::RemoveLong { limit: 40 }) =~= seq![
            TokenFilter::RemoveLong { limit: 40 },
        ]);
        assert(reg@ == default_registry_model());
    }
    reg
}

/// The tokenizer manager: a thread-safe store of named pipeline templates.
///
/// `register` and `get` may be called concurrently from many tasks; the lock
/// covers only the map operation, never tokenization work, and every `get`
/// hands out an independent duplicate of the stored template, so callers
/// never share mutable pipeline state.
#[derive(Clone)]
pub struct TokenizerManager {
    tokenizers: Arc<RwLock<RegistryMap, RegistryPred>>,
}

impl TokenizerManager {
    /// The lock guards registry well-formedness.
    pub closed spec fn wf(self) -> bool {
        (*self.tokenizers).pred() == RegistryPred
    }

    /// A manager owning exactly the given registry contents at the start.
    pub fn from_registry(reg: RegistryMap) -> (m: TokenizerManager)
        requires
            reg.wf(),
        ensures
            m.wf(),
    {
        TokenizerManager { tokenizers: Arc::new(RwLock::new(reg, Ghost(RegistryPred))) }
    }

    /// A manager with no pipelines registered.
    pub fn new() -> (m: TokenizerManager)
        ensures
            m.wf(),
    {
        TokenizerManager::from_registry(RegistryMap::new())
    }

    /// Insert or replace the template stored under `tokenizer_name`. The
    /// whole entry is swapped atomically: lookups concurrent with this call
    /// observe the old template or the new one, never a mixture. The
    /// sequential effect on the guarded registry is `RegistryMap::insert`.
    pub fn register(&self, tokenizer_name: &str, tokenizer: TextAnalyzer)
        requires
            self.wf(),
            tokenizer_name@.len() > 0,
    {
        let (mut reg, handle) = self.tokenizers.acquire_write();
        reg.insert(tokenizer_name, tokenizer);
        handle.release_write(reg);
    }

    /// Look the name up: an independent duplicate of the template registered
    /// under it at the moment of the lookup, or absent if the name was not
    /// registered at that moment. The result is consistent with
    /// `RegistryMap::lookup` on the well-formed registry state the lock held.
    pub fn get(&self, tokenizer_name: &str) -> (r: Option<TextAnalyzer>)
        requires
            self.wf(),
        ensures
            r matches Some(a) ==> exists|reg: RegistryMap|
                reg.wf() && reg@.contains_key(tokenizer_name@) && a@ == reg@[tokenizer_name@],
    {
        let handle = self.tokenizers.acquire_read();
        let r = handle.borrow().lookup(tokenizer_name);
        proof {
            if r is Some {
                let reg = handle.view();
                assert(reg.wf() && reg@.contains_key(tokenizer_name@) && r->Some_0@
                    == reg@[tokenizer_name@]);
            }
        }
        handle.release_read();
        r
    }
}

impl Default for TokenizerManager {
    /// A manager pre-populated with the default pipelines "raw", "default",
    /// "en_stem" and "ja".
    fn default() -> (m: TokenizerManager)
        ensures
            m.wf(),
    {
        TokenizerManager::from_registry(default_registry())
    }
}

} // verus!
