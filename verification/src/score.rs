//! Term-relevance scoring for the flat strategy: a document's score
//! against a query is the number of occurrences of the query term in the
//! document's title, and result lists are ordered by falling score.

use vstd::multiset::Multiset;
use vstd::prelude::*;

use crate::types::Article;
use crate::types::ArticleView;
use crate::types::SearchQuery;

verus! {

broadcast use vstd::seq_lib::group_to_multiset_ensures;

/// Whether the needle stands in the haystack at position `i`.
pub open spec fn match_at(hay: Seq<char>, needle: Seq<char>, i: int) -> bool {
    hay.subrange(i, i + needle.len()) == needle
}

/// How many positions at or after `i` the needle stands at. An empty
/// needle counts as occurring nowhere.
pub open spec fn occ_from(hay: Seq<char>, needle: Seq<char>, i: int) -> nat
    decreases hay.len() - needle.len() - i + 1,
{
    if needle.len() == 0 || i < 0 || i + needle.len() > hay.len() {
        0
    } else {
        (if match_at(hay, needle, i) {
            1nat
        } else {
            0nat
        }) + occ_from(hay, needle, i + 1)
    }
}

/// How many positions a non-empty needle stands at in the haystack.
pub open spec fn occurrences(hay: Seq<char>, needle: Seq<char>) -> nat {
    occ_from(hay, needle, 0)
}

/// A document's term-relevance score against a query term: occurrences
/// of the term in the title. Monotonic in the match count by definition.
pub open spec fn spec_score(term: Seq<char>, doc: ArticleView) -> nat {
    occurrences(doc.title, term)
}

/// The characters of a string, one element each.
pub fn str_chars(s: &str) -> (v: Vec<char>)
    ensures
        v@ == s@,
{
    let n = s.unicode_len();
    let mut v: Vec<char> = Vec::new();
    let mut i: usize = 0;
    while i < n
        invariant
            i <= n,
            n == s@.len(),
            v@ =~= s@.take(i as int),
        decreases n - i,
    {
        v.push(s.get_char(i));
        assert(v@ =~= s@.take(i as int + 1));
        i = i + 1;
    }
    assert(v@ =~= s@);
    v
}

fn match_at_exec(hay: &Vec<char>, needle: &Vec<char>, i: usize) -> (r: bool)
    requires
        i + needle@.len() <= hay@.len(),
    ensures
        r == match_at(hay@, needle@, i as int),
{
    let hlen = hay.len();
    let mut j: usize = 0;
    while j < needle.len()
        invariant
            j <= needle@.len(),
            i + needle@.len() <= hay@.len(),
            hlen == hay@.len(),
            forall|k: int| 0 <= k < j ==> hay@[i + k] == needle@[k],
        decreases needle@.len() - j,
    {
        if hay[i + j] != needle[j] {
            proof {
                let sub = hay@.subrange(i as int, i + needle@.len());
                assert(sub[j as int] == hay@[i + j]);
            }
            return false;
        }
        j = j + 1;
    }
    proof {
        assert(hay@.subrange(i as int, i + needle@.len()) =~= needle@);
    }
    true
}

/// Counts the occurrences of the needle in the haystack.
pub fn count_occurrences(hay: &Vec<char>, needle: &Vec<char>) -> (n: usize)
    ensures
        n == occurrences(hay@, needle@),
{
    if needle.len() == 0 {
        return 0;
    }
    if hay.len() < needle.len() {
        return 0;
    }
    let last = hay.len() - needle.len();
    let mut count: usize = 0;
    let mut i: usize = 0;
    while i <= last
        invariant
            i <= last + 1,
            last == hay@.len() - needle@.len(),
            hay@.len() <= usize::MAX,
            needle@.len() > 0,
            count <= i,
            count + occ_from(hay@, needle@, i as int) == occurrences(hay@, needle@),
        decreases last + 1 - i,
    {
        if match_at_exec(hay, needle, i) {
            count = count + 1;
        }
        i = i + 1;
    }
    proof {
        assert(occ_from(hay@, needle@, last + 1) == 0);
    }
    count
}

/// A document's score against a query term.
pub fn score_article(term_chars: &Vec<char>, doc: &Article) -> (n: usize)
    ensures
        n == spec_score(term_chars@, doc@),
{
    let title_chars = str_chars(doc.title.as_str());
    count_occurrences(&title_chars, term_chars)
}

/// Ghost image of a vector of documents, element by element.
pub open spec fn article_views(s: Seq<Article>) -> Seq<ArticleView> {
    s.map_values(|a: Article| a@)
}

/// Sorts documents by falling term-relevance score against the query.
/// The result is a permutation of the input: same documents, same
/// multiplicities, ordered so that no document stands after one with a
/// strictly lower score.
pub fn sort_documents(query: &SearchQuery, documents: Vec<Article>) -> (r: Vec<Article>)
    ensures
        article_views(r@).to_multiset() == article_views(documents@).to_multiset(),
        forall|x: int, y: int|
            0 <= x < y < r@.len() ==> spec_score(query.search_term@, article_views(r@)[x])
                >= spec_score(query.search_term@, article_views(r@)[y]),
{
    let ghost term = query.search_term@;
    let ghost orig = article_views(documents@);
    let term_chars = str_chars(query.search_term.as_str());
    let mut remaining = documents;
    let mut out: Vec<Article> = Vec::new();
    while remaining.len() > 0
        invariant
            term_chars@ == term,
            article_views(out@).to_multiset().add(article_views(remaining@).to_multiset())
                == orig.to_multiset(),
            forall|x: int, y: int|
                0 <= x < y < out@.len() ==> spec_score(term, article_views(out@)[x]) >= spec_score(
                    term,
                    article_views(out@)[y],
                ),
            forall|x: int, y: int|
                0 <= x < out@.len() && 0 <= y < remaining@.len() ==> spec_score(
                    term,
                    article_views(out@)[x],
                ) >= spec_score(term, article_views(remaining@)[y]),
        decreases remaining.len(),
    {
        let mut best: usize = 0;
        let mut best_score = score_article(&term_chars, &remaining[0]);
        let mut k: usize = 1;
        while k < remaining.len()
            invariant
                term_chars@ == term,
                0 < remaining@.len(),
                best < k,
                k <= remaining@.len(),
                best_score == spec_score(term, article_views(remaining@)[best as int]),
                forall|j: int|
                    0 <= j < k ==> best_score >= spec_score(term, article_views(remaining@)[j]),
            decreases remaining.len() - k,
        {
            let s = score_article(&term_chars, &remaining[k]);
            if s > best_score {
                best = k;
                best_score = s;
            }
            k = k + 1;
        }
        let ghost rem_pre = remaining@;
        let ghost out_pre = out@;
        let picked = remaining.remove(best);
        proof {
            assert(picked@ == article_views(rem_pre)[best as int]);
        }
        out.push(picked);
        proof {
            assert(article_views(out@) =~= article_views(out_pre).push(
                article_views(rem_pre)[best as int],
            ));
            assert(article_views(remaining@) =~= article_views(rem_pre).remove(best as int));
            assert(article_views(out@).to_multiset() =~= article_views(out_pre).to_multiset()
                .insert(article_views(rem_pre)[best as int]));
            assert(article_views(remaining@).to_multiset() =~= article_views(
                rem_pre,
            ).to_multiset().remove(article_views(rem_pre)[best as int]));
            assert(article_views(out@).to_multiset().add(
                article_views(remaining@).to_multiset(),
            ) =~= article_views(out_pre).to_multiset().add(article_views(rem_pre).to_multiset()));
            assert forall|x: int, y: int|
                0 <= x < out@.len() && 0 <= y < remaining@.len() implies spec_score(
                term,
                article_views(out@)[x],
            ) >= spec_score(term, article_views(remaining@)[y]) by {
                assert(article_views(remaining@)[y] == if y < best as int {
                    article_views(rem_pre)[y]
                } else {
                    article_views(rem_pre)[y + 1]
                });
                if x < out@.len() - 1 {
                    assert(article_views(out@)[x] == article_views(out_pre)[x]);
                } else {
                    assert(article_views(out@)[x] == article_views(rem_pre)[best as int]);
                }
            }
        }
    }
    proof {
        assert(article_views(remaining@).to_multiset() =~= Multiset::<ArticleView>::empty());
        assert(article_views(out@).to_multiset() =~= orig.to_multiset());
    }
    out
}

} // verus!
