//! The search orchestration service: role resolution, configuration
//! access, persisted-record retrieval, and the relevance dispatch over
//! the active role's strategy.
//!
//! The service decides and computes; it performs no process or file
//! work. The shell around the library captures the search output,
//! decodes it, aggregates it (through the cache) and hands the resulting
//! index in; for the knowledge-graph strategy it also builds the
//! thesaurus, which this library consumes as an opaque term-to-concept
//! table.

use vstd::prelude::*;

use crate::score::article_views;
use crate::score::sort_documents;
use crate::score::spec_score;
use crate::types::clone_string_vec;
use crate::types::contains_string;
use crate::types::string_views;
use crate::types::index_lookup;
use crate::types::string_eq;
use crate::types::Article;
use crate::types::ArticleView;
use crate::types::Index;
use crate::types::IndexedDocument;
use crate::types::IndexedDocumentView;
use crate::types::SearchQuery;

verus! {

/// The strategy a role orders its results by: flat term relevance
/// against titles, or ranking over the knowledge graph a thesaurus
/// induces.
#[derive(PartialEq, Eq, Structural, Clone, Copy, Debug)]
pub enum RelevanceFunction {
    TitleScorer,
    TerraphimGraph,
}

/// A named configuration bundle: the relevance strategy, the haystacks
/// it searches, and the automata source its knowledge graph is built
/// from. Read-only from the service's perspective.
#[derive(Debug)]
pub struct Role {
    pub relevance_function: RelevanceFunction,
    pub haystacks: Vec<String>,
    pub automata_url: String,
}

/// Ghost image of a `Role`.
pub struct RoleView {
    pub relevance_function: RelevanceFunction,
    pub haystacks: Seq<Seq<char>>,
    pub automata_url: Seq<char>,
}

impl View for Role {
    type V = RoleView;

    open spec fn view(&self) -> RoleView {
        RoleView {
            relevance_function: self.relevance_function,
            haystacks: self.haystacks.deep_view(),
            automata_url: self.automata_url@,
        }
    }
}

impl Role {
    /// An exact copy: the copy's ghost image equals the original's.
    pub fn duplicate(&self) -> (r: Role)
        ensures
            r@ == self@,
    {
        Role {
            relevance_function: self.relevance_function,
            haystacks: clone_string_vec(&self.haystacks),
            automata_url: self.automata_url.clone(),
        }
    }

    /// Whether this role's strategy needs a thesaurus built before any
    /// scoring starts.
    pub fn requires_thesaurus(&self) -> (r: bool)
        ensures
            r == (self.relevance_function is TerraphimGraph),
    {
        matches!(self.relevance_function, RelevanceFunction::TerraphimGraph)
    }
}

/// What looking a role up by name means: the first entry carrying it.
pub open spec fn role_lookup(s: Seq<(Seq<char>, RoleView)>, name: Seq<char>) -> Option<RoleView>
    decreases s.len(),
{
    if s.len() == 0 {
        None
    } else if s[0].0 == name {
        Some(s[0].1)
    } else {
        role_lookup(s.drop_first(), name)
    }
}

/// The process-wide configuration: the role a query without a role name
/// falls back to, and the role table.
#[derive(Debug)]
pub struct Config {
    pub default_role: String,
    pub roles: Vec<(String, Role)>,
}

/// Ghost image of a `Config`.
pub struct ConfigView {
    pub default_role: Seq<char>,
    pub roles: Seq<(Seq<char>, RoleView)>,
}

impl View for Config {
    type V = ConfigView;

    open spec fn view(&self) -> ConfigView {
        ConfigView {
            default_role: self.default_role@,
            roles: self.roles@.map_values(|p: (String, Role)| (p.0@, p.1@)),
        }
    }
}

impl Config {
    /// An exact copy: the copy's ghost image equals the original's.
    pub fn duplicate(&self) -> (r: Config)
        ensures
            r@ == self@,
    {
        let mut roles: Vec<(String, Role)> = Vec::new();
        let mut i: usize = 0;
        while i < self.roles.len()
            invariant
                i <= self.roles.len(),
                roles@.len() == i,
                self.roles@.len() == self@.roles.len(),
                forall|j: int|
                    0 <= j < i ==> (#[trigger] roles@[j].0)@ == self@.roles[j].0 && roles@[j].1@
                        == self@.roles[j].1,
            decreases self.roles.len() - i,
        {
            let p = &self.roles[i];
            roles.push((p.0.clone(), p.1.duplicate()));
            proof {
                assert(self@.roles[i as int] == (self.roles@[i as int].0@, self.roles@[
                    i as int].1@));
            }
            i = i + 1;
        }
        let r = Config { default_role: self.default_role.clone(), roles };
        proof {
            assert(r@.roles =~= self@.roles);
        }
        r
    }

    /// The role configured under a name, if any.
    pub fn get_role(&self, name: &String) -> (r: Option<Role>)
        ensures
            match r {
                Some(role) => role_lookup(self@.roles, name@) == Some(role@),
                None => role_lookup(self@.roles, name@) is None,
            },
    {
        proof {
            assert(self@.roles.skip(0) =~= self@.roles);
        }
        let mut i: usize = 0;
        while i < self.roles.len()
            invariant
                i <= self.roles.len(),
                self.roles@.len() == self@.roles.len(),
                role_lookup(self@.roles, name@) == role_lookup(
                    self@.roles.skip(i as int),
                    name@,
                ),
            decreases self.roles.len() - i,
        {
            proof {
                assert(self@.roles.skip(i as int)[0] == self@.roles[i as int]);
                assert(self@.roles.skip(i as int).drop_first() =~= self@.roles.skip(i as int + 1));
                assert(self@.roles[i as int] == (self.roles@[i as int].0@, self.roles@[
                    i as int].1@));
            }
            if string_eq(&self.roles[i].0, name) {
                return Some(self.roles[i].1.duplicate());
            }
            i = i + 1;
        }
        proof {
            assert(self@.roles.skip(i as int).len() == 0);
        }
        None
    }
}

/// The shared state the service works against: the configuration and the
/// records persisted by earlier indexing passes. Callers that share one
/// state across tasks keep it behind their own lock and hold that lock
/// only around whole calls, never across a suspension.
pub struct ConfigState {
    pub config: Config,
    pub indexed: Vec<IndexedDocument>,
}

/// Ghost image of the persisted records, element by element.
pub open spec fn indexed_views(s: Seq<IndexedDocument>) -> Seq<IndexedDocumentView> {
    s.map_values(|d: IndexedDocument| d@)
}

/// The errors the service surfaces: middleware failures around the
/// search process, storage failures, and an unknown or unconfigured
/// role.
#[derive(Debug)]
pub enum ServiceError {
    Middleware(String),
    OpenDal(String),
    Persistence(String),
    Config(String),
}

/// The records whose matched concepts include the query's term — the
/// persisted records "for the query".
pub open spec fn filter_matching(
    s: Seq<IndexedDocumentView>,
    term: Seq<char>,
) -> Seq<IndexedDocumentView>
    decreases s.len(),
{
    if s.len() == 0 {
        Seq::<IndexedDocumentView>::empty()
    } else {
        let rest = filter_matching(s.drop_last(), term);
        if s.last().matched_terms.contains(term) {
            rest.push(s.last())
        } else {
            rest
        }
    }
}

/// The documents the index holds for the given records, in record
/// order: a record whose identifier the index does not hold contributes
/// nothing.
pub open spec fn docs_for(
    index: Seq<(Seq<char>, ArticleView)>,
    records: Seq<IndexedDocumentView>,
) -> Seq<ArticleView>
    decreases records.len(),
{
    if records.len() == 0 {
        Seq::<ArticleView>::empty()
    } else {
        let rest = docs_for(index, records.drop_last());
        match index_lookup(index, records.last().id) {
            Some(a) => rest.push(a),
            None => rest,
        }
    }
}

impl Index {
    /// The documents this index holds for the given persisted records,
    /// in record order.
    pub fn get_documents(&self, records: &Vec<IndexedDocument>) -> (r: Vec<Article>)
        ensures
            article_views(r@) == docs_for(self@, indexed_views(records@)),
    {
        let mut r: Vec<Article> = Vec::new();
        let mut i: usize = 0;
        while i < records.len()
            invariant
                i <= records.len(),
                article_views(r@) == docs_for(self@, indexed_views(records@).take(i as int)),
            decreases records.len() - i,
        {
            let ghost pre = article_views(r@);
            proof {
                assert(indexed_views(records@).take(i as int + 1).drop_last() =~= indexed_views(
                    records@,
                ).take(i as int));
                assert(indexed_views(records@).take(i as int + 1).last() == records@[i as int]@);
            }
            match self.get(&records[i].id) {
                Some(article) => {
                    let copy = article.duplicate();
                    r.push(copy);
                    proof {
                        assert(article_views(r@) =~= pre.push(copy@));
                    }
                },
                None => {},
            }
            i = i + 1;
        }
        proof {
            assert(indexed_views(records@).take(records@.len() as int) =~= indexed_views(
                records@,
            ));
        }
        r
    }
}

/// The name a query searches under: the query's own role if it names
/// one, else the configuration's default role.
pub open spec fn spec_role_name(q: SearchQuery, c: ConfigView) -> Seq<char> {
    match q.role {
        Some(n) => n@,
        None => c.default_role,
    }
}

/// The role a query resolves to, if the configuration has it.
pub open spec fn spec_resolved_role(q: SearchQuery, c: ConfigView) -> Option<RoleView> {
    role_lookup(c.roles, spec_role_name(q, c))
}

/// The orchestration service: resolves roles, reads and replaces the
/// configuration, and dispatches scoring over the active strategy.
pub struct TerraphimService {
    pub config_state: ConfigState,
}

impl TerraphimService {
    /// A service over the given shared state.
    pub fn new(config_state: ConfigState) -> (s: TerraphimService)
        ensures
            s.config_state.config@ == config_state.config@,
            indexed_views(s.config_state.indexed@) == indexed_views(config_state.indexed@),
    {
        TerraphimService { config_state }
    }

    /// The role for a search query: the entry configured under the
    /// query's role name (or the default name). An unknown name is a
    /// configuration error, surfaced before any indexing work begins.
    pub fn get_search_role(&self, q: &SearchQuery) -> (r: Result<Role, ServiceError>)
        ensures
            match r {
                Ok(role) => spec_resolved_role(*q, self.config_state.config@) == Some(role@),
                Err(e) => spec_resolved_role(*q, self.config_state.config@) is None && (
                e matches ServiceError::Config(m) && m@ == "Role "@ + spec_role_name(
                    *q,
                    self.config_state.config@,
                ) + " not found in config"@),
            },
    {
        let name: String = match &q.role {
            Some(n) => n.clone(),
            None => self.config_state.config.default_role.clone(),
        };
        match self.config_state.config.get_role(&name) {
            Some(role) => Ok(role),
            None => {
                let mut m = String::from_str("Role ");
                m.append(name.as_str());
                m.append(" not found in config");
                Err(ServiceError::Config(m))
            },
        }
    }

    /// The current configuration, as a copy.
    pub fn fetch_config(&self) -> (c: Config)
        ensures
            c@ == self.config_state.config@,
    {
        self.config_state.config.duplicate()
    }

    /// Replaces the configuration, leaving the persisted records alone,
    /// and returns the configuration now in force.
    pub fn update_config(&mut self, config: Config) -> (r: Config)
        ensures
            final(self).config_state.config@ == config@,
            final(self).config_state.indexed == old(self).config_state.indexed,
            r@ == config@,
    {
        let r = config.duplicate();
        self.config_state.config = config;
        r
    }

    /// Persists a document as a record later queries can retrieve: the
    /// record carries the document's identifier (derived from its path
    /// when the document carries none), no matched concepts yet, and no
    /// rank. The document itself is handed back unchanged.
    pub fn create_document(&mut self, document: Article) -> (r: Result<
        Article,
        ServiceError,
    >)
        ensures
            r matches Ok(d) && d@ == document@,
            final(self).config_state.config == old(self).config_state.config,
            indexed_views(final(self).config_state.indexed@) == indexed_views(
                old(self).config_state.indexed@,
            ).push(
                IndexedDocumentView {
                    id: match document.id {
                        Some(id) => id@,
                        None => crate::hash::spec_id_of(document.url@),
                    },
                    matched_terms: Seq::<Seq<char>>::empty(),
                    rank: 0,
                },
            ),
    {
        let id: String = match &document.id {
            Some(id) => id.clone(),
            None => crate::hash::calculate_hash(&document.url),
        };
        let ghost pre = indexed_views(self.config_state.indexed@);
        let record = IndexedDocument { id, matched_terms: Vec::new(), rank: 0 };
        proof {
            assert(record.matched_terms.deep_view() =~= Seq::<Seq<char>>::empty());
        }
        self.config_state.indexed.push(record);
        proof {
            assert(indexed_views(self.config_state.indexed@) =~= pre.push(
                IndexedDocumentView {
                    id: match document.id {
                        Some(id) => id@,
                        None => crate::hash::spec_id_of(document.url@),
                    },
                    matched_terms: Seq::<Seq<char>>::empty(),
                    rank: 0,
                },
            ));
        }
        Ok(document)
    }

    /// The persisted records for a query: those matched to the query's
    /// term, in the order they were persisted.
    pub fn search_indexed_documents(&self, q: &SearchQuery) -> (r: Vec<IndexedDocument>)
        ensures
            indexed_views(r@) == filter_matching(
                indexed_views(self.config_state.indexed@),
                q.search_term@,
            ),
    {
        let mut r: Vec<IndexedDocument> = Vec::new();
        let all = &self.config_state.indexed;
        let mut i: usize = 0;
        while i < all.len()
            invariant
                i <= all.len(),
                all == &self.config_state.indexed,
                indexed_views(r@) == filter_matching(
                    indexed_views(all@).take(i as int),
                    q.search_term@,
                ),
            decreases all.len() - i,
        {
            let ghost pre = indexed_views(r@);
            proof {
                assert(indexed_views(all@).take(i as int + 1).drop_last() =~= indexed_views(
                    all@,
                ).take(i as int));
                assert(indexed_views(all@).take(i as int + 1).last() == all@[i as int]@);
                assert(string_views(all@[i as int].matched_terms@) =~= all@[
                    i as int].matched_terms.deep_view());
            }
            if contains_string(&all[i].matched_terms, &q.search_term) {
                let copy = all[i].duplicate();
                r.push(copy);
                proof {
                    assert(indexed_views(r@) =~= pre.push(all@[i as int]@));
                }
            }
            i = i + 1;
        }
        proof {
            assert(indexed_views(all@).take(all@.len() as int) =~= indexed_views(all@));
        }
        r
    }

    /// One search, over an index the shell has already aggregated for
    /// the query's haystacks. Resolving the role comes first: an unknown
    /// role is a configuration error and nothing else happens. Under the
    /// flat strategy the index's documents for the persisted records are
    /// ordered by falling term-relevance score and returned.
    pub fn search_documents(&self, q: &SearchQuery, index: &Index) -> (r: Result<
        Vec<Article>,
        ServiceError,
    >)
        requires
            spec_resolved_role(*q, self.config_state.config@) matches Some(role)
                ==> role.relevance_function is TitleScorer,
        ensures
            match r {
                Ok(docs) => {
                    &&& spec_resolved_role(*q, self.config_state.config@) is Some
                    &&& article_views(docs@).to_multiset() == docs_for(
                        index@,
                        filter_matching(
                            indexed_views(self.config_state.indexed@),
                            q.search_term@,
                        ),
                    ).to_multiset()
                    &&& forall|x: int, y: int|
                        0 <= x < y < docs@.len() ==> spec_score(
                            q.search_term@,
                            article_views(docs@)[x],
                        ) >= spec_score(q.search_term@, article_views(docs@)[y])
                },
                Err(_) => spec_resolved_role(*q, self.config_state.config@) is None,
            },
    {
        let role = match self.get_search_role(q) {
            Ok(role) => role,
            Err(e) => {
                return Err(e);
            },
        };
        match role.relevance_function {
            RelevanceFunction::TitleScorer => {
                let records = self.search_indexed_documents(q);
                let documents = index.get_documents(&records);
                let documents = sort_documents(q, documents);
                Ok(documents)
            },
            RelevanceFunction::TerraphimGraph => vstd::pervasive::unreached(),
        }
    }
}

} // verus!
