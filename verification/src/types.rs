//! Data model: search events, documents, the document index, and the
//! snapshot of file contents an aggregation pass reads bodies from.

use vstd::prelude::*;

verus! {

/// The line payload carried by a match or context event: either decoded
/// text or a non-textual (for example binary-detected) payload.
#[derive(Debug)]
pub enum Data {
    Text { text: String },
    Bytes,
}

/// Ghost image of `Data`: the text as a sequence of characters.
pub enum DataView {
    Text(Seq<char>),
    Bytes,
}

impl View for Data {
    type V = DataView;

    open spec fn view(&self) -> DataView {
        match self {
            Data::Text { text } => DataView::Text(text@),
            Data::Bytes => DataView::Bytes,
        }
    }
}

/// One event of the structured search output: a document is opened
/// (`Begin`), a matching or context line is reported for it, or the
/// document is closed (`End`). The source path may be absent from a
/// malformed event; the aggregator skips such events.
#[derive(Debug)]
pub enum Message {
    Begin { path: Option<String> },
    Match { path: Option<String>, lines: Data },
    Context { path: Option<String>, lines: Data },
    End,
}

/// Ghost image of `Message`.
pub enum MessageView {
    Begin(Option<Seq<char>>),
    Match(Option<Seq<char>>, DataView),
    Context(Option<Seq<char>>, DataView),
    End,
}

/// Ghost image of an optional string.
pub open spec fn opt_view(o: Option<String>) -> Option<Seq<char>> {
    match o {
        Some(s) => Some(s@),
        None => None,
    }
}

impl View for Message {
    type V = MessageView;

    open spec fn view(&self) -> MessageView {
        match self {
            Message::Begin { path } => MessageView::Begin(opt_view(*path)),
            Message::Match { path, lines } => MessageView::Match(opt_view(*path), lines@),
            Message::Context { path, lines } => MessageView::Context(opt_view(*path), lines@),
            Message::End => MessageView::End,
        }
    }
}

/// Ghost image of a whole event sequence.
pub open spec fn message_views(s: Seq<Message>) -> Seq<MessageView> {
    s.map_values(|m: Message| m@)
}

/// A unit of retrievable content, assembled by one aggregation pass.
#[derive(Debug)]
pub struct Article {
    /// Stable identifier, derived deterministically from the source path.
    pub id: Option<String>,
    /// Initialized from the source path.
    pub title: String,
    /// Initialized from the source path.
    pub url: String,
    /// Full file contents, read at aggregation time.
    pub body: String,
    /// Matched and context lines, space-joined in event order.
    pub description: Option<String>,
}

/// Ghost image of an `Article`.
pub struct ArticleView {
    pub id: Option<Seq<char>>,
    pub title: Seq<char>,
    pub url: Seq<char>,
    pub body: Seq<char>,
    pub description: Option<Seq<char>>,
}

impl View for Article {
    type V = ArticleView;

    open spec fn view(&self) -> ArticleView {
        ArticleView {
            id: opt_view(self.id),
            title: self.title@,
            url: self.url@,
            body: self.body@,
            description: opt_view(self.description),
        }
    }
}

/// The empty working record a successful `Begin` event starts from.
pub open spec fn empty_article_view() -> ArticleView {
    ArticleView {
        id: None,
        title: Seq::<char>::empty(),
        url: Seq::<char>::empty(),
        body: Seq::<char>::empty(),
        description: None,
    }
}

impl Default for Article {
    /// An empty article: no identifier, empty strings, no description.
    fn default() -> (a: Article)
        ensures
            a@ == empty_article_view(),
    {
        let a = Article {
            id: None,
            title: String::new(),
            url: String::new(),
            body: String::new(),
            description: None,
        };
        a
    }
}

impl Article {
    /// An exact copy: the copy's ghost image equals the original's.
    pub fn duplicate(&self) -> (r: Article)
        ensures
            r@ == self@,
    {
        Article {
            id: clone_opt_string(&self.id),
            title: self.title.clone(),
            url: self.url.clone(),
            body: self.body.clone(),
            description: clone_opt_string(&self.description),
        }
    }
}

/// Copies an optional string; the copy's ghost image equals the original's.
pub fn clone_opt_string(o: &Option<String>) -> (r: Option<String>)
    ensures
        opt_view(r) == opt_view(*o),
{
    match o {
        Some(s) => Some(s.clone()),
        None => None,
    }
}

/// One search request: the term, the role to search under if the caller
/// named one, and pagination bounds. Immutable while it travels the
/// pipeline.
pub struct SearchQuery {
    /// The needle handed to the external search process.
    pub search_term: String,
    /// The role whose configuration drives the search, if named.
    pub role: Option<String>,
    /// How many leading results the caller will drop.
    pub skip: Option<usize>,
    /// How many results the caller will take.
    pub limit: Option<usize>,
}

/// A record persisted by an earlier indexing pass: the document it points
/// at, and the concepts the pass matched it to.
#[derive(Debug)]
pub struct IndexedDocument {
    /// Identifier of the document the record points at.
    pub id: String,
    /// Concepts the document was matched to.
    pub matched_terms: Vec<String>,
    /// Rank assigned by the pass that persisted the record.
    pub rank: u64,
}

/// Ghost image of an `IndexedDocument`.
pub struct IndexedDocumentView {
    pub id: Seq<char>,
    pub matched_terms: Seq<Seq<char>>,
    pub rank: u64,
}

impl View for IndexedDocument {
    type V = IndexedDocumentView;

    open spec fn view(&self) -> IndexedDocumentView {
        IndexedDocumentView {
            id: self.id@,
            matched_terms: self.matched_terms.deep_view(),
            rank: self.rank,
        }
    }
}

impl IndexedDocument {
    /// An exact copy: the copy's ghost image equals the original's.
    pub fn duplicate(&self) -> (r: IndexedDocument)
        ensures
            r@ == self@,
    {
        IndexedDocument {
            id: self.id.clone(),
            matched_terms: clone_string_vec(&self.matched_terms),
            rank: self.rank,
        }
    }
}

/// Copies a vector of strings; the ghost image of every element is kept.
pub fn clone_string_vec(v: &Vec<String>) -> (r: Vec<String>)
    ensures
        r.deep_view() == v.deep_view(),
{
    let mut r: Vec<String> = Vec::new();
    let mut i: usize = 0;
    while i < v.len()
        invariant
            i <= v.len(),
            r@.len() == i,
            r.deep_view() =~~= v.deep_view().take(i as int),
        decreases v.len() - i,
    {
        let ghost rpre = r@;
        let ghost dpre = r.deep_view();
        r.push(v[i].clone());
        proof {
            assert(v.deep_view().len() == v@.len());
            assert forall|j: int| 0 <= j < i + 1 implies r.deep_view()[j] == v.deep_view().take(
                i as int + 1,
            )[j] by {
                assert(r.deep_view()[j] == r@[j]@);
                if j < i as int {
                    assert(r@[j] == rpre[j]);
                    assert(dpre[j] == rpre[j]@);
                    assert(dpre[j] == v.deep_view().take(i as int)[j]);
                }
                assert(v.deep_view()[j] == v@[j]@);
            }
            assert(r.deep_view() =~= v.deep_view().take(i as int + 1));
        }
        i = i + 1;
    }
    proof {
        assert(v.deep_view().len() == v@.len());
        assert(r.deep_view() =~= v.deep_view());
    }
    r
}

/// The deduplicated, insertion-ordered mapping from document identifier to
/// assembled document that one aggregation pass produces.
#[derive(Debug)]
pub struct Index {
    entries: Vec<(String, Article)>,
}

/// What inserting into the index means: the first entry carrying the key
/// is replaced in place; a fresh key is appended at the end, so insertion
/// order is kept.
pub open spec fn index_insert(
    s: Seq<(Seq<char>, ArticleView)>,
    k: Seq<char>,
    v: ArticleView,
) -> Seq<(Seq<char>, ArticleView)>
    decreases s.len(),
{
    if s.len() == 0 {
        seq![(k, v)]
    } else if s[0].0 == k {
        seq![(k, v)] + s.drop_first()
    } else {
        seq![s[0]] + index_insert(s.drop_first(), k, v)
    }
}

/// What looking a key up in the index means: the first entry carrying it.
pub open spec fn index_lookup(
    s: Seq<(Seq<char>, ArticleView)>,
    k: Seq<char>,
) -> Option<ArticleView>
    decreases s.len(),
{
    if s.len() == 0 {
        None
    } else if s[0].0 == k {
        Some(s[0].1)
    } else {
        index_lookup(s.drop_first(), k)
    }
}

impl View for Index {
    type V = Seq<(Seq<char>, ArticleView)>;

    closed spec fn view(&self) -> Seq<(Seq<char>, ArticleView)> {
        self.entries@.map_values(|p: (String, Article)| (p.0@, p.1@))
    }
}

impl Index {
    /// An index with no entries.
    pub fn new() -> (r: Index)
        ensures
            r@ == Seq::<(Seq<char>, ArticleView)>::empty(),
    {
        let r = Index { entries: Vec::new() };
        assert(r@ =~= Seq::<(Seq<char>, ArticleView)>::empty());
        r
    }

    /// How many entries the index holds.
    pub fn len(&self) -> (n: usize)
        ensures
            n == self@.len(),
    {
        self.entries.len()
    }

    /// The entry at a position, in insertion order.
    pub fn entry_at(&self, i: usize) -> (r: (&String, &Article))
        requires
            i < self@.len(),
        ensures
            r.0@ == self@[i as int].0,
            r.1@ == self@[i as int].1,
    {
        let p = &self.entries[i];
        (&p.0, &p.1)
    }

    /// Inserts a document under a key, replacing the first entry already
    /// carrying that key and keeping its position, or appending otherwise.
    pub fn insert(&mut self, key: String, value: Article)
        ensures
            final(self)@ == index_insert(old(self)@, key@, value@),
    {
        let ghost s0 = self@;
        let mut i: usize = 0;
        while i < self.entries.len()
            invariant
                i <= self.entries.len(),
                self@ == s0,
                s0 == old(self)@,
                self.entries.len() == s0.len(),
                forall|j: int| 0 <= j < i ==> s0[j].0 != key@,
            decreases self.entries.len() - i,
        {
            if string_eq(&self.entries[i].0, &key) {
                proof {
                    assert(s0[i as int] == (self.entries@[i as int].0@, self.entries@[
                        i as int].1@));
                }
                self.entries.set(i, (key, value));
                proof {
                    lemma_index_insert_found(s0, key@, value@, i as int);
                    assert(self@ =~= s0.update(i as int, (key@, value@)));
                }
                return;
            }
            i = i + 1;
        }
        self.entries.push((key, value));
        proof {
            lemma_index_insert_absent(s0, key@, value@);
            assert(self@ =~= s0.push((key@, value@)));
        }
    }

    /// The document stored under a key, if any.
    pub fn get(&self, key: &String) -> (r: Option<&Article>)
        ensures
            match r {
                Some(a) => index_lookup(self@, key@) == Some(a@),
                None => index_lookup(self@, key@) is None,
            },
    {
        proof {
            assert(self@.skip(0) =~= self@);
        }
        let mut i: usize = 0;
        while i < self.entries.len()
            invariant
                i <= self.entries.len(),
                self.entries.len() == self@.len(),
                forall|j: int| 0 <= j < i ==> self@[j].0 != key@,
                index_lookup(self@, key@) == index_lookup(self@.skip(i as int), key@),
            decreases self.entries.len() - i,
        {
            if string_eq(&self.entries[i].0, key) {
                proof {
                    assert(self@.skip(i as int)[0] == self@[i as int]);
                }
                return Some(&self.entries[i].1);
            }
            proof {
                assert(self@.skip(i as int).drop_first() =~= self@.skip(i as int + 1));
                assert(self@.skip(i as int)[0] == self@[i as int]);
            }
            i = i + 1;
        }
        proof {
            assert(self@.skip(i as int).len() == 0);
        }
        None
    }

    /// An exact copy: the copy's ghost image equals the original's.
    pub fn duplicate(&self) -> (r: Index)
        ensures
            r@ == self@,
    {
        let mut entries: Vec<(String, Article)> = Vec::new();
        let mut i: usize = 0;
        while i < self.entries.len()
            invariant
                i <= self.entries.len(),
                self.entries.len() == self@.len(),
                entries@.len() == i,
                entries@.map_values(|p: (String, Article)| (p.0@, p.1@)) =~~= self@.take(
                    i as int,
                ),
            decreases self.entries.len() - i,
        {
            let ghost epre = entries@;
            let ghost dpre = entries@.map_values(|p: (String, Article)| (p.0@, p.1@));
            let p = &self.entries[i];
            entries.push((p.0.clone(), p.1.duplicate()));
            proof {
                let ghost dnow = entries@.map_values(|p: (String, Article)| (p.0@, p.1@));
                assert forall|j: int| 0 <= j < i + 1 implies dnow[j] == self@.take(i as int + 1)[j]
                    by {
                    assert(dnow[j] == (entries@[j].0@, entries@[j].1@));
                    if j < i as int {
                        assert(entries@[j] == epre[j]);
                        assert(dpre[j] == (epre[j].0@, epre[j].1@));
                        assert(dpre[j] == self@.take(i as int)[j]);
                    } else {
                        assert(self@[j] == (self.entries@[j].0@, self.entries@[j].1@));
                    }
                }
                assert(dnow =~= self@.take(i as int + 1));
            }
            i = i + 1;
        }
        let r = Index { entries };
        assert(r@ =~= self@.take(self@.len() as int));
        assert(r@ =~= self@);
        r
    }
}

/// Exact string comparison, stated over the ghost images.
pub fn string_eq(a: &String, b: &String) -> (r: bool)
    ensures
        r == (a@ == b@),
{
    *a == *b
}

/// Whether two optional strings have the same ghost image.
pub fn opt_string_eq(a: &Option<String>, b: &Option<String>) -> (r: bool)
    ensures
        r == (opt_view(*a) == opt_view(*b)),
{
    match (a, b) {
        (Some(x), Some(y)) => string_eq(x, y),
        (None, None) => true,
        _ => false,
    }
}

/// Ghost image of a vector of strings, element by element.
pub open spec fn string_views(s: Seq<String>) -> Seq<Seq<char>> {
    s.map_values(|x: String| x@)
}

/// Whether the vector holds a string with this ghost image.
pub fn contains_string(v: &Vec<String>, s: &String) -> (r: bool)
    ensures
        r == string_views(v@).contains(s@),
{
    let mut i: usize = 0;
    while i < v.len()
        invariant
            i <= v.len(),
            forall|j: int| 0 <= j < i ==> v@[j]@ != s@,
        decreases v.len() - i,
    {
        if string_eq(&v[i], s) {
            proof {
                assert(string_views(v@)[i as int] == s@);
            }
            return true;
        }
        i = i + 1;
    }
    proof {
        if string_views(v@).contains(s@) {
            let k = choose|k: int| 0 <= k < string_views(v@).len() && string_views(v@)[k] == s@;
            assert(v@[k]@ == s@);
        }
    }
    false
}

proof fn lemma_index_insert_found(
    s: Seq<(Seq<char>, ArticleView)>,
    k: Seq<char>,
    v: ArticleView,
    i: int,
)
    requires
        0 <= i < s.len(),
        s[i].0 == k,
        forall|j: int| 0 <= j < i ==> s[j].0 != k,
    ensures
        index_insert(s, k, v) == s.update(i, (k, v)),
    decreases i,
{
    if i == 0 {
        assert(index_insert(s, k, v) == seq![(k, v)] + s.drop_first());
        assert(seq![(k, v)] + s.drop_first() =~= s.update(0, (k, v)));
    } else {
        assert(s[0].0 != k);
        lemma_index_insert_found(s.drop_first(), k, v, i - 1);
        assert(index_insert(s, k, v) == seq![s[0]] + index_insert(s.drop_first(), k, v));
        assert(seq![s[0]] + s.drop_first().update(i - 1, (k, v)) =~= s.update(i, (k, v)));
    }
}

proof fn lemma_index_insert_absent(s: Seq<(Seq<char>, ArticleView)>, k: Seq<char>, v: ArticleView)
    requires
        forall|j: int| 0 <= j < s.len() ==> s[j].0 != k,
    ensures
        index_insert(s, k, v) == s.push((k, v)),
    decreases s.len(),
{
    if s.len() == 0 {
        assert(index_insert(s, k, v) =~= s.push((k, v)));
    } else {
        lemma_index_insert_absent(s.drop_first(), k, v);
        assert(index_insert(s, k, v) == seq![s[0]] + s.drop_first().push((k, v)));
        assert(seq![s[0]] + s.drop_first().push((k, v)) =~= s.push((k, v)));
    }
}

/// A snapshot of file contents, taken by the caller before an aggregation
/// pass: each pair is a source path and the full text found at it. A path
/// with no pair stands for a file that could not be read.
pub struct FileSnapshot {
    files: Vec<(String, String)>,
}

/// What reading from a snapshot means: the content paired with the first
/// matching path, or nothing.
pub open spec fn snapshot_lookup(
    s: Seq<(Seq<char>, Seq<char>)>,
    p: Seq<char>,
) -> Option<Seq<char>>
    decreases s.len(),
{
    if s.len() == 0 {
        None
    } else if s[0].0 == p {
        Some(s[0].1)
    } else {
        snapshot_lookup(s.drop_first(), p)
    }
}

impl View for FileSnapshot {
    type V = Seq<(Seq<char>, Seq<char>)>;

    closed spec fn view(&self) -> Seq<(Seq<char>, Seq<char>)> {
        self.files@.map_values(|p: (String, String)| (p.0@, p.1@))
    }
}

impl FileSnapshot {
    /// A snapshot with no files.
    pub fn new() -> (r: FileSnapshot)
        ensures
            r@ == Seq::<(Seq<char>, Seq<char>)>::empty(),
    {
        let r = FileSnapshot { files: Vec::new() };
        assert(r@ =~= Seq::<(Seq<char>, Seq<char>)>::empty());
        r
    }

    /// Records the content read at a path.
    pub fn add(&mut self, path: String, content: String)
        ensures
            final(self)@ == old(self)@.push((path@, content@)),
    {
        self.files.push((path, content));
        assert(self@ =~= old(self)@.push((path@, content@)));
    }

    /// The content recorded for a path, or nothing if the path is absent.
    pub fn read(&self, path: &String) -> (r: Option<String>)
        ensures
            opt_view(r) == snapshot_lookup(self@, path@),
    {
        proof {
            assert(self@.skip(0) =~= self@);
        }
        let mut i: usize = 0;
        while i < self.files.len()
            invariant
                i <= self.files.len(),
                self.files.len() == self@.len(),
                snapshot_lookup(self@, path@) == snapshot_lookup(self@.skip(i as int), path@),
            decreases self.files.len() - i,
        {
            proof {
                assert(self@.skip(i as int)[0] == self@[i as int]);
                assert(self@.skip(i as int).drop_first() =~= self@.skip(i as int + 1));
            }
            if string_eq(&self.files[i].0, path) {
                return Some(self.files[i].1.clone());
            }
            i = i + 1;
        }
        proof {
            assert(self@.skip(i as int).len() == 0);
        }
        None
    }
}

} // verus!
