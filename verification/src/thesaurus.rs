//! The thesaurus the knowledge-graph strategy scores against: an opaque
//! term-to-concept table, built outside the library, consumed here only
//! through lookups. The graph rank of a persisted record is a function
//! of matched concepts, never of raw substrings: it counts the record's
//! matched terms that map to the same concept as the query's term.

use vstd::prelude::*;

use crate::types::string_eq;
use crate::types::IndexedDocument;
use crate::types::IndexedDocumentView;
use crate::types::SearchQuery;

verus! {

/// A term-to-concept mapping, as the external builder delivered it.
pub struct Thesaurus {
    entries: Vec<(String, String)>,
}

/// What looking a term up means: the concept paired with the first
/// matching term, or nothing.
pub open spec fn concept_lookup(
    s: Seq<(Seq<char>, Seq<char>)>,
    term: Seq<char>,
) -> Option<Seq<char>>
    decreases s.len(),
{
    if s.len() == 0 {
        None
    } else if s[0].0 == term {
        Some(s[0].1)
    } else {
        concept_lookup(s.drop_first(), term)
    }
}

impl View for Thesaurus {
    type V = Seq<(Seq<char>, Seq<char>)>;

    closed spec fn view(&self) -> Seq<(Seq<char>, Seq<char>)> {
        self.entries@.map_values(|p: (String, String)| (p.0@, p.1@))
    }
}

impl Thesaurus {
    /// A thesaurus with no entries.
    pub fn new() -> (r: Thesaurus)
        ensures
            r@ == Seq::<(Seq<char>, Seq<char>)>::empty(),
    {
        let r = Thesaurus { entries: Vec::new() };
        proof {
            assert(r@ =~= Seq::<(Seq<char>, Seq<char>)>::empty());
        }
        r
    }

    /// Records that a surface term maps to a canonical concept.
    pub fn add(&mut self, term: String, concept: String)
        ensures
            final(self)@ == old(self)@.push((term@, concept@)),
    {
        self.entries.push((term, concept));
        proof {
            assert(self@ =~= old(self)@.push((term@, concept@)));
        }
    }

    /// The canonical concept for a term, or nothing if the thesaurus
    /// does not know the term.
    pub fn concept_of(&self, term: &String) -> (r: Option<String>)
        ensures
            crate::types::opt_view(r) == concept_lookup(self@, term@),
    {
        proof {
            assert(self@.skip(0) =~= self@);
        }
        let mut i: usize = 0;
        while i < self.entries.len()
            invariant
                i <= self.entries.len(),
                self.entries@.len() == self@.len(),
                concept_lookup(self@, term@) == concept_lookup(self@.skip(i as int), term@),
            decreases self.entries.len() - i,
        {
            proof {
                assert(self@.skip(i as int)[0] == self@[i as int]);
                assert(self@.skip(i as int).drop_first() =~= self@.skip(i as int + 1));
            }
            if string_eq(&self.entries[i].0, term) {
                return Some(self.entries[i].1.clone());
            }
            i = i + 1;
        }
        proof {
            assert(self@.skip(i as int).len() == 0);
        }
        None
    }
}

/// How many of a record's matched terms map to the given concept.
pub open spec fn count_matching_concepts(
    th: Seq<(Seq<char>, Seq<char>)>,
    concept: Seq<char>,
    terms: Seq<Seq<char>>,
) -> nat
    decreases terms.len(),
{
    if terms.len() == 0 {
        0
    } else {
        count_matching_concepts(th, concept, terms.drop_last()) + (
        if concept_lookup(th, terms.last()) == Some(concept) {
            1nat
        } else {
            0nat
        })
    }
}

/// A record's knowledge-graph rank against a query term: zero when the
/// thesaurus does not know the term, else the number of the record's
/// matched terms that map to the term's own concept.
pub open spec fn graph_rank(
    th: Seq<(Seq<char>, Seq<char>)>,
    term: Seq<char>,
    d: IndexedDocumentView,
) -> nat {
    match concept_lookup(th, term) {
        None => 0,
        Some(concept) => count_matching_concepts(th, concept, d.matched_terms),
    }
}

/// Scores persisted records against the thesaurus-derived knowledge
/// graph: one rank per record, in record order. What later becomes of
/// the ranked records — their conversion back to full documents — is
/// deliberately left to the caller, which today has no such conversion.
pub fn score_indexed_documents(
    thesaurus: &Thesaurus,
    q: &SearchQuery,
    records: &Vec<IndexedDocument>,
) -> (ranks: Vec<u64>)
    ensures
        ranks@.len() == records@.len(),
        forall|x: int|
            0 <= x < records@.len() ==> ranks@[x] == graph_rank(
                thesaurus@,
                q.search_term@,
                records@[x]@,
            ),
{
    let concept = match thesaurus.concept_of(&q.search_term) {
        Some(c) => c,
        None => {
            let mut ranks: Vec<u64> = Vec::new();
            let mut i: usize = 0;
            while i < records.len()
                invariant
                    i <= records.len(),
                    ranks@.len() == i,
                    concept_lookup(thesaurus@, q.search_term@) is None,
                    forall|x: int| 0 <= x < i ==> ranks@[x] == 0,
                decreases records.len() - i,
            {
                ranks.push(0);
                i = i + 1;
            }
            return ranks;
        },
    };
    let mut ranks: Vec<u64> = Vec::new();
    let mut i: usize = 0;
    while i < records.len()
        invariant
            i <= records.len(),
            ranks@.len() == i,
            concept_lookup(thesaurus@, q.search_term@) == Some(concept@),
            forall|x: int|
                0 <= x < i ==> ranks@[x] == graph_rank(thesaurus@, q.search_term@, records@[x]@),
        decreases records.len() - i,
    {
        let record = &records[i];
        let terms = &record.matched_terms;
        let mut count: u64 = 0;
        let mut j: usize = 0;
        while j < terms.len()
            invariant
                j <= terms.len(),
                count <= j,
                concept_lookup(thesaurus@, q.search_term@) == Some(concept@),
                count == count_matching_concepts(
                    thesaurus@,
                    concept@,
                    terms.deep_view().take(j as int),
                ),
            decreases terms.len() - j,
        {
            proof {
                assert(terms.deep_view().take(j as int + 1).drop_last() =~= terms.deep_view().take(
                    j as int,
                ));
                assert(terms.deep_view().take(j as int + 1).last() == terms@[j as int]@);
            }
            let matched = match thesaurus.concept_of(&terms[j]) {
                Some(c) => string_eq(&c, &concept),
                None => false,
            };
            if matched {
                count = count + 1;
            }
            j = j + 1;
        }
        proof {
            assert(terms.deep_view().take(terms@.len() as int) =~= terms.deep_view());
            assert(records@[i as int]@.matched_terms == terms.deep_view());
        }
        ranks.push(count);
        i = i + 1;
    }
    ranks
}

} // verus!
