//! The document aggregator: a state machine that folds the ordered event
//! stream of the external search process into a deduplicated index.
//!
//! The fold keeps a current working record and the set of source paths
//! already opened in this pass. A `Begin` event for a fresh path starts a
//! new record; a `Begin` for a path already seen, or one with no path, is
//! ignored and leaves the working record untouched. `Match` events fill
//! the record's body from the file snapshot and extend its description;
//! `Context` events extend the description only, and only when their path
//! is the record's own. `End` finalizes the record into the index under
//! its identifier. Anomalous events degrade locally: they are skipped and
//! the pass continues.

use vstd::prelude::*;

use crate::hash::calculate_hash;
use crate::hash::spec_id_of;
use crate::types::empty_article_view;
use crate::types::index_insert;
use crate::types::message_views;
use crate::types::opt_view;
use crate::types::snapshot_lookup;
use crate::types::contains_string;
use crate::types::string_eq;
use crate::types::string_views;
use crate::types::Article;
use crate::types::ArticleView;
use crate::types::Data;
use crate::types::DataView;
use crate::types::FileSnapshot;
use crate::types::Index;
use crate::types::Message;
use crate::types::MessageView;

verus! {

/// The aggregator's state: the working record, the source paths already
/// opened in this pass, and the index accumulated so far.
pub struct AggState {
    pub current: ArticleView,
    pub seen: Seq<Seq<char>>,
    pub index: Seq<(Seq<char>, ArticleView)>,
}

/// The state a pass starts from: an empty record, nothing seen, an empty
/// index.
pub open spec fn init_state() -> AggState {
    AggState {
        current: empty_article_view(),
        seen: Seq::<Seq<char>>::empty(),
        index: Seq::<(Seq<char>, ArticleView)>::empty(),
    }
}

/// Space-joined extension of a description: the first line stands alone,
/// later lines are appended after a single space.
pub open spec fn desc_append(d: Option<Seq<char>>, t: Seq<char>) -> Option<Seq<char>> {
    match d {
        Some(s) => Some(s + " "@ + t),
        None => Some(t),
    }
}

/// One transition of the aggregation state machine.
pub open spec fn step(
    st: AggState,
    m: MessageView,
    files: Seq<(Seq<char>, Seq<char>)>,
) -> AggState {
    match m {
        MessageView::Begin(path) => match path {
            None => st,
            Some(p) => if st.seen.contains(p) {
                st
            } else {
                AggState {
                    current: ArticleView {
                        id: Some(spec_id_of(p)),
                        title: p,
                        url: p,
                        body: Seq::<char>::empty(),
                        description: None,
                    },
                    seen: st.seen.push(p),
                    index: st.index,
                }
            },
        },
        MessageView::Match(path, lines) => match path {
            None => st,
            Some(p) => match snapshot_lookup(files, p) {
                None => st,
                Some(content) => {
                    let filled = ArticleView {
                        id: st.current.id,
                        title: st.current.title,
                        url: st.current.url,
                        body: content,
                        description: st.current.description,
                    };
                    match lines {
                        DataView::Text(t) => AggState {
                            current: ArticleView {
                                id: filled.id,
                                title: filled.title,
                                url: filled.url,
                                body: filled.body,
                                description: desc_append(filled.description, t),
                            },
                            seen: st.seen,
                            index: st.index,
                        },
                        DataView::Bytes => AggState {
                            current: filled,
                            seen: st.seen,
                            index: st.index,
                        },
                    }
                },
            },
        },
        MessageView::Context(path, lines) => match path {
            None => st,
            Some(p) => if p != st.current.url {
                st
            } else {
                match lines {
                    DataView::Text(t) => AggState {
                        current: ArticleView {
                            id: st.current.id,
                            title: st.current.title,
                            url: st.current.url,
                            body: st.current.body,
                            description: desc_append(st.current.description, t),
                        },
                        seen: st.seen,
                        index: st.index,
                    },
                    DataView::Bytes => st,
                }
            },
        },
        MessageView::End => match st.current.id {
            None => st,
            Some(id) => AggState {
                current: st.current,
                seen: st.seen,
                index: index_insert(st.index, id, st.current),
            },
        },
    }
}

/// The state after folding a whole event sequence, from a given state.
pub open spec fn run_from(
    st: AggState,
    ms: Seq<MessageView>,
    files: Seq<(Seq<char>, Seq<char>)>,
) -> AggState
    decreases ms.len(),
{
    if ms.len() == 0 {
        st
    } else {
        run_from(step(st, ms[0], files), ms.drop_first(), files)
    }
}

/// The index one aggregation pass over an event sequence produces, given
/// a snapshot of the file contents the pass reads bodies from.
pub open spec fn spec_aggregate(
    ms: Seq<MessageView>,
    files: Seq<(Seq<char>, Seq<char>)>,
) -> Seq<(Seq<char>, ArticleView)> {
    run_from(init_state(), ms, files).index
}

/// Space-joined extension of a description.
fn append_desc(d: &Option<String>, t: &String) -> (r: Option<String>)
    ensures
        opt_view(r) == desc_append(opt_view(*d), t@),
{
    match d {
        Some(s) => {
            let mut joined = s.clone();
            joined.append(" ");
            joined.append(t.as_str());
            Some(joined)
        },
        None => Some(t.clone()),
    }
}

/// Aggregates an ordered event sequence into a deduplicated index,
/// reading document bodies from the given file snapshot.
///
/// The result is exactly the fold of the aggregation state machine over
/// the events, in order: duplicate paths collapse to their first `Begin`,
/// anomalous events are dropped, and a trailing record that never saw its
/// `End` is not part of the index.
pub fn index_messages(messages: &Vec<Message>, files: &FileSnapshot) -> (r: Index)
    ensures
        r@ == spec_aggregate(message_views(messages@), files@),
{
    let ghost ms = message_views(messages@);
    let mut current = Article::default();
    let mut seen: Vec<String> = Vec::new();
    let mut index = Index::new();
    let mut i: usize = 0;
    proof {
        assert(ms.skip(0) =~= ms);
        assert(string_views(seen@) =~= Seq::<Seq<char>>::empty());
    }
    while i < messages.len()
        invariant
            i <= messages.len(),
            ms == message_views(messages@),
            ms.len() == messages@.len(),
            run_from(
                AggState { current: current@, seen: string_views(seen@), index: index@ },
                ms.skip(i as int),
                files@,
            ) == run_from(init_state(), ms, files@),
        decreases messages.len() - i,
    {
        let ghost st_pre = AggState {
            current: current@,
            seen: string_views(seen@),
            index: index@,
        };
        proof {
            assert(ms.skip(i as int)[0] == ms[i as int]);
            assert(ms.skip(i as int).drop_first() =~= ms.skip(i as int + 1));
            assert(run_from(st_pre, ms.skip(i as int), files@) == run_from(
                step(st_pre, ms[i as int], files@),
                ms.skip(i as int + 1),
                files@,
            ));
            assert(ms[i as int] == messages@[i as int]@);
        }
        let message = &messages[i];
        match message {
            Message::Begin { path } => {
                if let Some(p) = path {
                    if !contains_string(&seen, p) {
                        let ghost seen_pre = seen@;
                        seen.push(p.clone());
                        proof {
                            assert(string_views(seen@) =~= string_views(seen_pre).push(p@));
                        }
                        let id = calculate_hash(p);
                        current = Article {
                            id: Some(id),
                            title: p.clone(),
                            url: p.clone(),
                            body: String::new(),
                            description: None,
                        };
                    }
                }
            },
            Message::Match { path, lines } => {
                if let Some(p) = path {
                    match files.read(p) {
                        None => {},
                        Some(content) => {
                            current.body = content;
                            if let Data::Text { text } = lines {
                                current.description = append_desc(&current.description, text);
                            }
                        },
                    }
                }
            },
            Message::Context { path, lines } => {
                if let Some(p) = path {
                    if string_eq(&current.url, p) {
                        if let Data::Text { text } = lines {
                            current.description = append_desc(&current.description, text);
                        }
                    }
                }
            },
            Message::End => {
                match &current.id {
                    Some(id) => {
                        index.insert(id.clone(), current.duplicate());
                    },
                    None => {},
                }
            },
        }
        proof {
            let st_post = step(st_pre, ms[i as int], files@);
            assert(current@ == st_post.current);
            assert(string_views(seen@) == st_post.seen);
            assert(index@ == st_post.index);
        }
        i = i + 1;
    }
    proof {
        assert(ms.skip(messages@.len() as int).len() == 0);
    }
    index
}

/// Whether an event is a `Begin` that carries a source path — the only
/// kind of event that can open a working record.
pub open spec fn is_begin_with_path(m: MessageView) -> bool {
    m matches MessageView::Begin(Some(_))
}

/// A finalized index entry is keyed by the identifier derived from its
/// document's source path, and the document carries that identifier.
pub open spec fn entry_keyed_by_url(e: (Seq<char>, ArticleView)) -> bool {
    e.0 == spec_id_of(e.1.url) && e.1.id == Some(e.0)
}

/// The aggregator's invariant: an open working record carries the
/// identifier of its own path, every index entry is keyed by its
/// document's path, and no two entries share a key.
pub open spec fn wf_state(st: AggState) -> bool {
    &&& (st.current.id is Some ==> st.current.id == Some(spec_id_of(st.current.url)))
    &&& forall|x: int| 0 <= x < st.index.len() ==> entry_keyed_by_url(#[trigger] st.index[x])
    &&& forall|x: int, y: int|
        #![trigger st.index[x].0, st.index[y].0]
        0 <= x < y < st.index.len() ==> st.index[x].0 != st.index[y].0
}

proof fn lemma_index_insert_keeps_wf(s: Seq<(Seq<char>, ArticleView)>, k: Seq<char>, v: ArticleView)
    requires
        forall|x: int| 0 <= x < s.len() ==> entry_keyed_by_url(#[trigger] s[x]),
        forall|x: int, y: int|
            #![trigger s[x].0, s[y].0]
            0 <= x < y < s.len() ==> s[x].0 != s[y].0,
        entry_keyed_by_url((k, v)),
    ensures
        forall|x: int|
            0 <= x < index_insert(s, k, v).len() ==> entry_keyed_by_url(
                #[trigger] index_insert(s, k, v)[x],
            ),
        forall|x: int, y: int|
            #![trigger index_insert(s, k, v)[x].0, index_insert(s, k, v)[y].0]
            0 <= x < y < index_insert(s, k, v).len() ==> index_insert(s, k, v)[x].0
                != index_insert(s, k, v)[y].0,
        forall|x: int|
            0 <= x < index_insert(s, k, v).len() ==> (#[trigger] index_insert(s, k, v)[x].0) == k
                || (exists|y: int| 0 <= y < s.len() && s[y].0 == index_insert(s, k, v)[x].0),
    decreases s.len(),
{
    let res = index_insert(s, k, v);
    if s.len() == 0 {
        assert(res =~= seq![(k, v)]);
    } else if s[0].0 == k {
        assert(res == seq![(k, v)] + s.drop_first());
        assert forall|x: int| 0 <= x < res.len() implies entry_keyed_by_url(#[trigger] res[x]) by {
            if x > 0 {
                assert(res[x] == s[x]);
            }
        }
        assert forall|x: int, y: int| 0 <= x < y < res.len() implies (#[trigger] res[x].0)
            != (#[trigger] res[y].0) by {
            if x == 0 {
                assert(res[y] == s[y]);
                assert(s[0].0 != s[y].0);
            } else {
                assert(res[x] == s[x] && res[y] == s[y]);
            }
        }
        assert forall|x: int| 0 <= x < res.len() implies (#[trigger] res[x].0) == k || (exists|
            y: int,
        | 0 <= y < s.len() && s[y].0 == res[x].0) by {
            if x > 0 {
                assert(res[x] == s[x]);
                assert(0 <= x < s.len() && s[x].0 == res[x].0);
            }
        }
    } else {
        let tail = s.drop_first();
        assert forall|x: int| 0 <= x < tail.len() implies entry_keyed_by_url(#[trigger] tail[x]) by {
            assert(tail[x] == s[x + 1]);
        }
        assert forall|x: int, y: int| 0 <= x < y < tail.len() implies (#[trigger] tail[x].0)
            != (#[trigger] tail[y].0) by {
            assert(tail[x] == s[x + 1] && tail[y] == s[y + 1]);
        }
        lemma_index_insert_keeps_wf(tail, k, v);
        let rec = index_insert(tail, k, v);
        assert(res == seq![s[0]] + rec);
        assert forall|x: int| 0 <= x < res.len() implies entry_keyed_by_url(#[trigger] res[x]) by {
            if x > 0 {
                assert(res[x] == rec[x - 1]);
            }
        }
        assert forall|x: int, y: int| 0 <= x < y < res.len() implies (#[trigger] res[x].0)
            != (#[trigger] res[y].0) by {
            if x == 0 {
                assert(res[y] == rec[y - 1]);
                if rec[y - 1].0 == k {
                } else {
                    let w = choose|w: int| 0 <= w < tail.len() && tail[w].0 == rec[y - 1].0;
                    assert(tail[w] == s[w + 1]);
                    assert(s[0].0 != s[w + 1].0);
                }
            } else {
                assert(res[x] == rec[x - 1] && res[y] == rec[y - 1]);
            }
        }
        assert forall|x: int| 0 <= x < res.len() implies (#[trigger] res[x].0) == k || (exists|
            y: int,
        | 0 <= y < s.len() && s[y].0 == res[x].0) by {
            if x == 0 {
                assert(0 <= 0 < s.len() && s[0].0 == res[0].0);
            } else {
                assert(res[x] == rec[x - 1]);
                if rec[x - 1].0 != k {
                    let w = choose|w: int| 0 <= w < tail.len() && tail[w].0 == rec[x - 1].0;
                    assert(s[w + 1].0 == res[x].0);
                }
            }
        }
    }
}

proof fn lemma_step_keeps_wf(st: AggState, m: MessageView, files: Seq<(Seq<char>, Seq<char>)>)
    requires
        wf_state(st),
    ensures
        wf_state(step(st, m, files)),
{
    match m {
        MessageView::End => {
            match st.current.id {
                None => {},
                Some(id) => {
                    assert(entry_keyed_by_url((id, st.current)));
                    lemma_index_insert_keeps_wf(st.index, id, st.current);
                },
            }
        },
        _ => {},
    }
}

proof fn lemma_run_from_keeps_wf(st: AggState, ms: Seq<MessageView>, files: Seq<(Seq<char>, Seq<char>)>)
    requires
        wf_state(st),
    ensures
        wf_state(run_from(st, ms, files)),
    decreases ms.len(),
{
    if ms.len() > 0 {
        lemma_step_keeps_wf(st, ms[0], files);
        lemma_run_from_keeps_wf(step(st, ms[0], files), ms.drop_first(), files);
    }
}

/// Deduplication: whatever the event sequence and the snapshot, one
/// aggregation pass yields at most one index entry per source path.
pub proof fn lemma_dedup(ms: Seq<MessageView>, files: Seq<(Seq<char>, Seq<char>)>, p: Seq<char>)
    ensures
        forall|x: int, y: int|
            #![trigger spec_aggregate(ms, files)[x], spec_aggregate(ms, files)[y]]
            0 <= x < spec_aggregate(ms, files).len() && 0 <= y < spec_aggregate(ms, files).len()
                && spec_aggregate(ms, files)[x].1.url == p && spec_aggregate(ms, files)[y].1.url
                == p ==> x == y,
{
    lemma_run_from_keeps_wf(init_state(), ms, files);
    let agg = spec_aggregate(ms, files);
    assert forall|x: int, y: int|
        0 <= x < agg.len() && 0 <= y < agg.len() && (#[trigger] agg[x]).1.url == p
            && (#[trigger] agg[y]).1.url == p implies x == y by {
        assert(entry_keyed_by_url(agg[x]));
        assert(entry_keyed_by_url(agg[y]));
        assert(agg[x].0 == spec_id_of(p) && agg[y].0 == spec_id_of(p));
        if x < y {
            assert(agg[x].0 != agg[y].0);
        }
        if y < x {
            assert(agg[x].0 != agg[y].0);
        }
    }
}

/// Every finalized entry is keyed by the identifier derived from its
/// document's source path, and the document carries that identifier —
/// the sense in which an entry derives from the `Begin` that opened it.
pub proof fn lemma_entries_keyed_by_path(
    ms: Seq<MessageView>,
    files: Seq<(Seq<char>, Seq<char>)>,
)
    ensures
        forall|x: int|
            0 <= x < spec_aggregate(ms, files).len() ==> entry_keyed_by_url(
                #[trigger] spec_aggregate(ms, files)[x],
            ),
{
    lemma_run_from_keeps_wf(init_state(), ms, files);
}

/// First `Begin` wins: a later `Begin` for a path this pass has already
/// opened changes nothing at all — in particular it does not reset the
/// working record.
pub proof fn lemma_duplicate_begin_skipped(
    st: AggState,
    p: Seq<char>,
    files: Seq<(Seq<char>, Seq<char>)>,
)
    requires
        st.seen.contains(p),
    ensures
        step(st, MessageView::Begin(Some(p)), files) == st,
{
}

/// Determinism: aggregation is a function of the event sequence and the
/// file snapshot alone, so two passes over the same input yield indexes
/// that are equal in content.
pub proof fn lemma_aggregate_deterministic(
    r1: Seq<(Seq<char>, ArticleView)>,
    r2: Seq<(Seq<char>, ArticleView)>,
    ms: Seq<MessageView>,
    files: Seq<(Seq<char>, Seq<char>)>,
)
    requires
        r1 == spec_aggregate(ms, files),
        r2 == spec_aggregate(ms, files),
    ensures
        r1 == r2,
{
}

/// A context line arriving for a different document than the one
/// currently open is dropped without altering anything.
pub proof fn lemma_context_mismatch(
    st: AggState,
    p: Seq<char>,
    lines: DataView,
    files: Seq<(Seq<char>, Seq<char>)>,
)
    requires
        p != st.current.url,
    ensures
        step(st, MessageView::Context(Some(p), lines), files) == st,
{
}

proof fn lemma_no_begin_no_record(
    st: AggState,
    ms: Seq<MessageView>,
    files: Seq<(Seq<char>, Seq<char>)>,
)
    requires
        st.current.id is None,
        forall|x: int| 0 <= x < ms.len() ==> !is_begin_with_path(#[trigger] ms[x]),
    ensures
        run_from(st, ms, files).index == st.index,
        run_from(st, ms, files).current.id is None,
    decreases ms.len(),
{
    if ms.len() > 0 {
        let st1 = step(st, ms[0], files);
        assert(!is_begin_with_path(ms[0]));
        assert(st1.index == st.index && st1.current.id is None);
        assert forall|x: int| 0 <= x < ms.drop_first().len() implies !is_begin_with_path(
            #[trigger] ms.drop_first()[x],
        ) by {
            assert(ms.drop_first()[x] == ms[x + 1]);
        }
        lemma_no_begin_no_record(st1, ms.drop_first(), files);
    }
}

/// Premature `End`: while no `Begin` carrying a path has opened a record
/// — in particular when an `End` arrives first — no index entry is
/// produced, and the pass goes on undisturbed.
pub proof fn lemma_premature_end(ms: Seq<MessageView>, files: Seq<(Seq<char>, Seq<char>)>)
    requires
        forall|x: int| 0 <= x < ms.len() ==> !is_begin_with_path(#[trigger] ms[x]),
    ensures
        spec_aggregate(ms, files).len() == 0,
{
    lemma_no_begin_no_record(init_state(), ms, files);
}

/// Runs the external line-oriented search process over a haystack. The
/// service itself only knows the executable's name and the fixed flags
/// every invocation passes: structured output, trimmed lines, case
/// folding. Spawning the process and draining its output is the calling
/// shell's work; the library states which arguments that call must use.
pub struct LogseqService {
    pub command: String,
    pub default_args: Vec<String>,
}

impl Default for LogseqService {
    /// The stock service: the `rg` executable with the fixed flag set.
    fn default() -> (s: LogseqService)
        ensures
            s.command@ == "rg"@,
            s.default_args.deep_view() == seq!["--json"@, "--trim"@, "--ignore-case"@],
    {
        let mut default_args: Vec<String> = Vec::new();
        default_args.push(String::from_str("--json"));
        default_args.push(String::from_str("--trim"));
        default_args.push(String::from_str("--ignore-case"));
        proof {
            assert(default_args.deep_view() =~= seq!["--json"@, "--trim"@, "--ignore-case"@]);
        }
        LogseqService { command: String::from_str("rg"), default_args }
    }
}

impl LogseqService {
    /// The full argument list of one invocation: the needle, then the
    /// haystack path, then the fixed flags, in that order.
    pub fn command_args(&self, needle: &String, haystack: &String) -> (args: Vec<String>)
        ensures
            args.deep_view() == seq![needle@, haystack@] + self.default_args.deep_view(),
    {
        let mut args: Vec<String> = Vec::new();
        args.push(needle.clone());
        args.push(haystack.clone());
        let mut i: usize = 0;
        while i < self.default_args.len()
            invariant
                i <= self.default_args.len(),
                args@.len() == 2 + i,
                args.deep_view() =~~= (seq![needle@, haystack@]
                    + self.default_args.deep_view()).take(2 + i as int),
        decreases self.default_args.len() - i,
        {
            let ghost apre = args@;
            let ghost dpre = args.deep_view();
            args.push(self.default_args[i].clone());
            proof {
                let full = seq![needle@, haystack@] + self.default_args.deep_view();
                assert(self.default_args.deep_view().len() == self.default_args@.len());
                assert forall|j: int| 0 <= j < 2 + i + 1 implies args.deep_view()[j] == full.take(
                    2 + i as int + 1,
                )[j] by {
                    assert(args.deep_view()[j] == args@[j]@);
                    if j < 2 + i as int {
                        assert(args@[j] == apre[j]);
                        assert(dpre[j] == apre[j]@);
                        assert(dpre[j] == full.take(2 + i as int)[j]);
                    } else {
                        assert(args@[j] == self.default_args@[i as int]);
                        assert(full[j] == self.default_args.deep_view()[i as int]);
                    }
                }
                assert(args.deep_view() =~= full.take(2 + i as int + 1));
            }
            i = i + 1;
        }
        proof {
            let full = seq![needle@, haystack@] + self.default_args.deep_view();
            assert(self.default_args.deep_view().len() == self.default_args@.len());
            assert(args.deep_view() =~= full);
        }
        args
    }
}

/// Indexes a haystack of notes through the external search process: the
/// shell captures the process's output for `LogseqService::command_args`,
/// decodes it, snapshots the files the events name, and this indexer
/// aggregates the events into the deduplicated index.
pub struct LogseqIndexer {
    pub service: LogseqService,
}

impl Default for LogseqIndexer {
    /// An indexer over the stock service.
    fn default() -> (r: LogseqIndexer)
        ensures
            r.service.command@ == "rg"@,
            r.service.default_args.deep_view() == seq!["--json"@, "--trim"@, "--ignore-case"@],
    {
        LogseqIndexer { service: LogseqService::default() }
    }
}

impl LogseqIndexer {
    /// Aggregates one decoded event stream into the document index.
    pub fn index_events(&self, messages: &Vec<Message>, files: &FileSnapshot) -> (r: Index)
        ensures
            r@ == spec_aggregate(message_views(messages@), files@),
    {
        index_messages(messages, files)
    }

    /// Indexes one captured output of the search process: decodes it —
    /// a malformed line fails the whole pass — and aggregates the
    /// decoded events against the file snapshot.
    pub fn index_output(&self, output: &str, files: &FileSnapshot) -> (r: Result<
        Index,
        crate::decode::DecodeError,
    >)
        ensures
            match r {
                Ok(index) => crate::decode::spec_decode(output@) matches Some(ms) && index@
                    == spec_aggregate(ms, files@),
                Err(_) => crate::decode::spec_decode(output@) is None,
            },
    {
        match crate::decode::json_decode(output) {
            Ok(messages) => Ok(index_messages(&messages, files)),
            Err(e) => Err(e),
        }
    }
}

} // verus!
