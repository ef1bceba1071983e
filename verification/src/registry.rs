use vstd::prelude::*;
use vstd::string::StrSliceExecFns;

use crate::pipeline::{AnalyzerModel, TextAnalyzer, analyze};

verus! {

/// No two entries carry the same name.
pub open spec fn distinct_keys(es: Seq<(String, TextAnalyzer)>) -> bool {
    forall|i: int, j: int| 0 <= i < j < es.len() ==> es[i].0@ != es[j].0@
}

/// Some entry carries this name.
pub open spec fn seq_has_key(es: Seq<(String, TextAnalyzer)>, k: Seq<char>) -> bool {
    exists|i: int| 0 <= i < es.len() && es[i].0@ == k
}

pub open spec fn key_index(es: Seq<(String, TextAnalyzer)>, k: Seq<char>) -> int {
    choose|i: int| 0 <= i < es.len() && es[i].0@ == k
}

/// The mapping a list of entries denotes: each name to its template's model.
pub open spec fn map_of(es: Seq<(String, TextAnalyzer)>) -> Map<Seq<char>, AnalyzerModel> {
    Map::new(|k: Seq<char>| seq_has_key(es, k), |k: Seq<char>| es[key_index(es, k)].1@)
}

proof fn lemma_map_of_entry(es: Seq<(String, TextAnalyzer)>, i: int)
    requires
        distinct_keys(es),
        0 <= i < es.len(),
    ensures
        map_of(es).contains_key(es[i].0@),
        map_of(es)[es[i].0@] == es[i].1@,
{
    let k = es[i].0@;
    assert(seq_has_key(es, k));
    let j = key_index(es, k);
    assert(0 <= j < es.len() && es[j].0@ == k);
    if i < j {
        assert(es[i].0@ != es[j].0@);
    } else if j < i {
        assert(es[j].0@ != es[i].0@);
    }
}

proof fn lemma_remove_key(es: Seq<(String, TextAnalyzer)>, i: int)
    requires
        distinct_keys(es),
        0 <= i < es.len(),
    ensures
        distinct_keys(es.remove(i)),
        !seq_has_key(es.remove(i), es[i].0@),
        map_of(es.remove(i)) == map_of(es).remove(es[i].0@),
{
    let rest = es.remove(i);
    es.remove_ensures(i);
    assert forall|x: int, y: int| 0 <= x < y < rest.len() implies rest[x].0@ != rest[y].0@ by {
        let x0 = if x < i { x } else { x + 1 };
        let y0 = if y < i { y } else { y + 1 };
        assert(rest[x] == es[x0]);
        assert(rest[y] == es[y0]);
    }
    assert forall|x: int| 0 <= x < rest.len() implies rest[x].0@ != es[i].0@ by {
        let x0 = if x < i { x } else { x + 1 };
        assert(rest[x] == es[x0]);
        if x0 < i {
            assert(es[x0].0@ != es[i].0@);
        } else {
            assert(es[i].0@ != es[x0].0@);
        }
    }
    assert forall|k: Seq<char>| #[trigger] seq_has_key(rest, k) implies seq_has_key(es, k) && k
        != es[i].0@ by {
        let x = choose|x: int| 0 <= x < rest.len() && rest[x].0@ == k;
        let x0 = if x < i { x } else { x + 1 };
        assert(rest[x] == es[x0]);
    }
    assert forall|k: Seq<char>| seq_has_key(es, k) && k != es[i].0@ implies #[trigger] seq_has_key(
        rest,
        k,
    ) by {
        let x0 = choose|x0: int| 0 <= x0 < es.len() && es[x0].0@ == k;
        let x = if x0 < i { x0 } else { x0 - 1 };
        assert(rest[x] == es[x0]);
    }
    assert forall|k: Seq<char>| #[trigger] seq_has_key(rest, k) implies map_of(rest)[k] == map_of(
        es,
    )[k] by {
        let x = choose|x: int| 0 <= x < rest.len() && rest[x].0@ == k;
        let x0 = if x < i { x } else { x + 1 };
        assert(rest[x] == es[x0]);
        lemma_map_of_entry(rest, x);
        lemma_map_of_entry(es, x0);
    }
    assert(map_of(rest) =~= map_of(es).remove(es[i].0@));
}

proof fn lemma_push_key(es: Seq<(String, TextAnalyzer)>, p: (String, TextAnalyzer))
    requires
        distinct_keys(es),
        !seq_has_key(es, p.0@),
    ensures
        distinct_keys(es.push(p)),
        map_of(es.push(p)) == map_of(es).insert(p.0@, p.1@),
{
    let grown = es.push(p);
    assert forall|x: int, y: int| 0 <= x < y < grown.len() implies grown[x].0@ != grown[y].0@ by {
        if y < es.len() {
            assert(es[x].0@ != es[y].0@);
        } else {
            assert(grown[y] == p);
            assert(grown[x] == es[x]);
            if grown[x].0@ == p.0@ {
                assert(seq_has_key(es, p.0@));
            }
        }
    }
    assert forall|k: Seq<char>| #[trigger] seq_has_key(grown, k) implies k == p.0@ || seq_has_key(
        es,
        k,
    ) by {
        let x = choose|x: int| 0 <= x < grown.len() && grown[x].0@ == k;
        if x < es.len() {
            assert(es[x].0@ == k);
        }
    }
    assert(grown[es.len() as int] == p);
    assert(seq_has_key(grown, p.0@));
    assert forall|k: Seq<char>| seq_has_key(es, k) implies #[trigger] seq_has_key(grown, k) by {
        let x = choose|x: int| 0 <= x < es.len() && es[x].0@ == k;
        assert(grown[x] == es[x]);
    }
    lemma_map_of_entry(grown, es.len() as int);
    assert forall|k: Seq<char>| #[trigger] seq_has_key(es, k) && k != p.0@ implies map_of(grown)[k]
        == map_of(es)[k] by {
        let x = choose|x: int| 0 <= x < es.len() && es[x].0@ == k;
        assert(grown[x] == es[x]);
        lemma_map_of_entry(grown, x);
        lemma_map_of_entry(es, x);
    }
    assert(map_of(grown) =~= map_of(es).insert(p.0@, p.1@));
}

/// Character-by-character string equality.
fn str_eq(a: &str, b: &str) -> (r: bool)
    ensures
        r == (a@ == b@),
{
    let na = a.unicode_len();
    let nb = b.unicode_len();
    if na != nb {
        return false;
    }
    let mut k: usize = 0;
    while k < na
        invariant
            k <= na,
            na == a@.len(),
            na == b@.len(),
            forall|i: int| 0 <= i < k ==> a@[i] == b@[i],
        decreases na - k,
    {
        if a.get_char(k) != b.get_char(k) {
            return false;
        }
        k += 1;
    }
    proof {
        assert(a@ =~= b@);
    }
    true
}

/// The sequential store of named pipeline templates: at most one template per
/// name, registration is last-write-wins, lookup hands out duplicates.
pub struct RegistryMap {
    entries: Vec<(String, TextAnalyzer)>,
}

impl View for RegistryMap {
    type V = Map<Seq<char>, AnalyzerModel>;

    closed spec fn view(&self) -> Map<Seq<char>, AnalyzerModel> {
        map_of(self.entries@)
    }
}

impl RegistryMap {
    /// At most one entry per name.
    pub closed spec fn wf(self) -> bool {
        distinct_keys(self.entries@)
    }

    /// An empty registry.
    pub fn new() -> (m: RegistryMap)
        ensures
            m.wf(),
            m@ == Map::<Seq<char>, AnalyzerModel>::empty(),
    {
        let m = RegistryMap { entries: Vec::new() };
        proof {
            assert(m@ =~= Map::<Seq<char>, AnalyzerModel>::empty());
        }
        m
    }

    fn position_of(&self, name: &str) -> (r: Option<usize>)
        ensures
            match r {
                Some(i) => i < self.entries@.len() && self.entries@[i as int].0@ == name@,
                None => !seq_has_key(self.entries@, name@),
            },
    {
        let mut k: usize = 0;
        while k < self.entries.len()
            invariant
                k <= self.entries@.len(),
                forall|i: int| 0 <= i < k ==> self.entries@[i].0@ != name@,
            decreases self.entries@.len() - k,
        {
            if str_eq(self.entries[k].0.as_str(), name) {
                return Some(k);
            }
            k += 1;
        }
        None
    }

    /// Insert the template under `name`, replacing whatever was there: the
    /// mapping afterwards is the old one with exactly this name rebound.
    /// Registered names are non-empty identifying strings.
    pub fn insert(&mut self, name: &str, template: TextAnalyzer)
        requires
            old(self).wf(),
            name@.len() > 0,
        ensures
            final(self).wf(),
            final(self)@ == old(self)@.insert(name@, template@),
    {
        let ghost es0 = self.entries@;
        match self.position_of(name) {
            Some(i) => {
                self.entries.remove(i);
                proof {
                    lemma_remove_key(es0, i as int);
                }
            },
            None => {},
        }
        let ghost es1 = self.entries@;
        let key = name.to_owned();
        self.entries.push((key, template));
        proof {
            let p = (key, template);
            assert(self.entries@ == es1.push(p));
            lemma_push_key(es1, p);
            assert(self@ =~= old(self)@.insert(name@, template@));
        }
    }

    /// Look the name up: a fresh, independent duplicate of the stored
    /// template if the name is registered, absent otherwise.
    pub fn lookup(&self, name: &str) -> (r: Option<TextAnalyzer>)
        requires
            self.wf(),
        ensures
            r is Some <==> self@.contains_key(name@),
            match r {
                Some(a) => lookup_model(self@, name@) == Some(a@),
                None => lookup_model(self@, name@) is None,
            },
    {
        match self.position_of(name) {
            Some(i) => {
                proof {
                    lemma_map_of_entry(self.entries@, i as int);
                }
                Some(self.entries[i].1.duplicate())
            },
            None => None,
        }
    }
}

/// What a lookup yields on a given mapping: the bound model, or absence.
pub open spec fn lookup_model(m: Map<Seq<char>, AnalyzerModel>, name: Seq<char>) -> Option<
    AnalyzerModel,
> {
    if m.contains_key(name) {
        Some(m[name])
    } else {
        None
    }
}

/// A name never registered resolves to nothing.
pub proof fn lemma_get_unregistered(m: Map<Seq<char>, AnalyzerModel>, name: Seq<char>)
    requires
        !m.contains_key(name),
    ensures
        lookup_model(m, name) is None,
{
}

/// After registering a pipeline under a name, looking that name up yields an
/// instance with exactly the registered pipeline's model — hence, by
/// `TextAnalyzer::token_stream`'s contract, its tokenization behavior.
pub proof fn lemma_register_then_get(
    m: Map<Seq<char>, AnalyzerModel>,
    name: Seq<char>,
    p: AnalyzerModel,
)
    ensures
        lookup_model(m.insert(name, p), name) == Some(p),
{
}

/// Re-registering a name replaces the whole template: the registry is as if
/// the first registration had never happened, and lookup reflects the second.
pub proof fn lemma_reregister_replaces(
    m: Map<Seq<char>, AnalyzerModel>,
    name: Seq<char>,
    p1: AnalyzerModel,
    p2: AnalyzerModel,
)
    ensures
        lookup_model(m.insert(name, p1).insert(name, p2), name) == Some(p2),
        m.insert(name, p1).insert(name, p2) == m.insert(name, p2),
{
    assert(m.insert(name, p1).insert(name, p2) =~= m.insert(name, p2));
}

/// Instances with the same model tokenize alike on any texts, whatever else
/// either instance has processed: behavior is a function of the model and the
/// text alone.
pub proof fn lemma_instances_independent(
    a1: AnalyzerModel,
    a2: AnalyzerModel,
    t1: Seq<char>,
    t2: Seq<char>,
)
    requires
        a1 == a2,
    ensures
        analyze(a1, t1) == analyze(a2, t1),
        analyze(a1, t2) == analyze(a2, t2),
{
}

/// Two fresh instances obtained under the same name tokenize the same text
/// into identical streams.
pub proof fn lemma_tokenize_idempotent(
    m: Map<Seq<char>, AnalyzerModel>,
    name: Seq<char>,
    text: Seq<char>,
    p1: AnalyzerModel,
    p2: AnalyzerModel,
)
    requires
        lookup_model(m, name) == Some(p1),
        lookup_model(m, name) == Some(p2),
    ensures
        analyze(p1, text) == analyze(p2, text),
{
}

} // verus!
