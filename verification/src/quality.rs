//! The store of the comments left on clips, and the payloads that fill it.

use crate::json::{item_views, json_document, lookup, parse_document, text_view, Document, FieldView};
use crate::text::{parse_u16, same_text, u16_value};
use vstd::prelude::*;

verus! {

/// The port of the local bridge where none is configured.
pub const QUALITY_PORT: u16 = 47800;

/// The shared token of the local bridge where none is configured.
pub const QUALITY_TOKEN: &'static str = "orochi-local-7Q2vXm";

/// The raw comments on one clip and the time, in seconds since the Unix epoch, at which
/// they arrived.
#[derive(Debug)]
pub struct ClipEntry {
    pub ts: u64,
    pub comments: Vec<String>,
}

/// The model of an entry.
pub struct ClipView {
    pub ts: u64,
    pub comments: Seq<Seq<char>>,
}

pub open spec fn text_views(texts: Seq<String>) -> Seq<Seq<char>> {
    texts.map_values(|t: String| t@)
}

impl View for ClipEntry {
    type V = ClipView;

    open spec fn view(&self) -> ClipView {
        ClipView { ts: self.ts, comments: text_views(self.comments@) }
    }
}

/// The comments of every clip, by clip id.
#[derive(Debug)]
pub struct QualityStore {
    version: u32,
    clips: Vec<(String, ClipEntry)>,
}

/// The model of the store.
#[verifier::ext_equal]
pub struct StoreView {
    pub version: u32,
    pub clips: Map<Seq<char>, ClipView>,
}

/// The entries by their ids; of two entries with one id the later counts.
pub open spec fn clip_map(clips: Seq<(String, ClipEntry)>) -> Map<Seq<char>, ClipView>
    decreases clips.len(),
{
    if clips.len() == 0 {
        Map::empty()
    } else {
        clip_map(clips.drop_last()).insert(clips.last().0@, clips.last().1@)
    }
}

/// No id occurs twice.
pub open spec fn distinct_ids(clips: Seq<(String, ClipEntry)>) -> bool {
    forall|i: int, j: int|
        0 <= i < j < clips.len() ==> #[trigger] clips[i].0@ != #[trigger] clips[j].0@
}

/// Where no id occurs twice, the map holds exactly the entries of the list.
proof fn lemma_clip_map(clips: Seq<(String, ClipEntry)>)
    requires
        distinct_ids(clips),
    ensures
        forall|i: int|
            0 <= i < clips.len() ==> clip_map(clips).contains_pair(
                #[trigger] clips[i].0@,
                clips[i].1@,
            ),
        forall|id: Seq<char>| #[trigger]
            clip_map(clips).contains_key(id) ==> exists|i: int|
                0 <= i < clips.len() && #[trigger] clips[i].0@ == id,
        clip_map(clips).dom().finite(),
        clip_map(clips).dom().len() == clips.len(),
    decreases clips.len(),
{
    if clips.len() > 0 {
        let rest = clips.drop_last();
        assert(distinct_ids(rest)) by {
            assert forall|i: int, j: int| 0 <= i < j < rest.len() implies #[trigger] rest[i].0@
                != #[trigger] rest[j].0@ by {
                assert(clips[i].0@ != clips[j].0@);
            }
        }
        lemma_clip_map(rest);
        let id = clips.last().0@;
        assert(!clip_map(rest).contains_key(id)) by {
            if clip_map(rest).contains_key(id) {
                let i = choose|i: int| 0 <= i < rest.len() && #[trigger] rest[i].0@ == id;
                assert(clips[i].0@ != clips[clips.len() - 1].0@);
            }
        }
        assert(clip_map(clips).dom() =~= clip_map(rest).dom().insert(id));
        assert forall|i: int| 0 <= i < clips.len() implies clip_map(clips).contains_pair(
            #[trigger] clips[i].0@,
            clips[i].1@,
        ) by {
            if i < rest.len() {
                assert(rest[i].0@ == clips[i].0@);
                assert(clip_map(rest).contains_pair(rest[i].0@, rest[i].1@));
                assert(clips[i].0@ != clips[clips.len() - 1].0@);
            }
        }
        assert forall|k: Seq<char>| #[trigger] clip_map(clips).contains_key(k) implies exists|
            i: int,
        |
            0 <= i < clips.len() && #[trigger] clips[i].0@ == k by {
            if k == id {
                assert(clips[clips.len() - 1].0@ == k);
            } else {
                assert(clip_map(rest).contains_key(k));
                let i = choose|i: int| 0 <= i < rest.len() && #[trigger] rest[i].0@ == k;
                assert(clips[i].0@ == k);
            }
        }
    }
}

/// The ids and contents of some entries.
pub open spec fn entry_views(clips: Seq<(String, ClipEntry)>) -> Seq<(Seq<char>, ClipView)> {
    clips.map_values(|e: (String, ClipEntry)| (e.0@, e.1@))
}

/// The two lists hold entries of the same ids and contents, in whatever order.
pub open spec fn same_entries(a: Seq<(String, ClipEntry)>, b: Seq<(String, ClipEntry)>) -> bool {
    forall|e: (Seq<char>, ClipView)|
        #![trigger entry_views(a).contains(e)]
        #![trigger entry_views(b).contains(e)]
        entry_views(a).contains(e) <==> entry_views(b).contains(e)
}

/// A store does not depend on the order in which its entries are read back: two lists of entries
/// with the same ids and contents, each clip once, make the same store.
pub proof fn order_of_entries_is_free(a: Seq<(String, ClipEntry)>, b: Seq<(String, ClipEntry)>)
    requires
        distinct_ids(a),
        distinct_ids(b),
        same_entries(a, b),
    ensures
        clip_map(a) == clip_map(b),
{
    lemma_same_entries(a, b);
    lemma_same_entries(b, a);
    assert(clip_map(a) =~= clip_map(b));
}

/// A store is rebuilt from its entries: a store made, with the same version, of entries that are
/// those of a store by their ids and contents is that store.
pub proof fn store_is_rebuilt_from_its_entries(
    store: StoreView,
    written: Seq<(String, ClipEntry)>,
    read: Seq<(String, ClipEntry)>,
)
    requires
        distinct_ids(written),
        clip_map(written) == store.clips,
        distinct_ids(read),
        same_entries(written, read),
    ensures
        (StoreView { version: store.version, clips: clip_map(read) }) == store,
{
    order_of_entries_is_free(written, read);
}

proof fn lemma_same_entries(a: Seq<(String, ClipEntry)>, b: Seq<(String, ClipEntry)>)
    requires
        distinct_ids(a),
        distinct_ids(b),
        same_entries(a, b),
    ensures
        forall|id: Seq<char>| #[trigger]
            clip_map(a).contains_key(id) ==> clip_map(b).contains_pair(id, clip_map(a)[id]),
{
    lemma_clip_map(a);
    lemma_clip_map(b);
    assert forall|id: Seq<char>| #[trigger] clip_map(a).contains_key(id) implies clip_map(
        b,
    ).contains_pair(id, clip_map(a)[id]) by {
        let i = choose|i: int| 0 <= i < a.len() && #[trigger] a[i].0@ == id;
        assert(clip_map(a).contains_pair(a[i].0@, a[i].1@));
        let e = (a[i].0@, a[i].1@);
        assert(entry_views(a)[i] == e);
        assert(entry_views(a).contains(e));
        assert(entry_views(b).contains(e));
        let j = choose|j: int| 0 <= j < entry_views(b).len() && entry_views(b)[j] == e;
        assert(clip_map(b).contains_pair(b[j].0@, b[j].1@));
    }
}

/// Sets the entry of a clip, whether or not the clip was known.
fn place(clips: &mut Vec<(String, ClipEntry)>, id: String, entry: ClipEntry)
    requires
        distinct_ids(old(clips)@),
    ensures
        distinct_ids(final(clips)@),
        clip_map(final(clips)@) == clip_map(old(clips)@).insert(id@, entry@),
{
    let ghost before = clips@;
    let ghost map = clip_map(before);
    let ghost key = id@;
    let ghost value = entry@;
    proof {
        lemma_clip_map(before);
    }
    let mut i: usize = 0;
    while i < clips.len() && !same_text(clips[i].0.as_str(), id.as_str())
        invariant
            i <= clips.len(),
            clips@ == before,
            id@ == key,
            forall|j: int| 0 <= j < i ==> #[trigger] before[j].0@ != key,
        decreases clips.len() - i,
    {
        i = i + 1;
    }
    if i < clips.len() {
        clips.set(i, (id, entry));
        proof {
            let after = clips@;
            assert forall|a: int, b: int| 0 <= a < b < after.len() implies #[trigger] after[a].0@
                != #[trigger] after[b].0@ by {
                assert(before[a].0@ != before[b].0@);
            }
            lemma_clip_map(after);
            let got = clip_map(after);
            let want = map.insert(key, value);
            assert forall|k: Seq<char>| #[trigger] got.contains_key(k) <==> want.contains_key(
                k,
            ) by {
                if got.contains_key(k) {
                    let j = choose|j: int| 0 <= j < after.len() && #[trigger] after[j].0@ == k;
                    assert(map.contains_pair(before[j].0@, before[j].1@));
                }
                if want.contains_key(k) {
                    if k == key {
                        assert(got.contains_pair(after[i as int].0@, after[i as int].1@));
                    } else {
                        let j = choose|j: int|
                            0 <= j < before.len() && #[trigger] before[j].0@ == k;
                        assert(got.contains_pair(after[j].0@, after[j].1@));
                    }
                }
            }
            assert forall|k: Seq<char>| got.contains_key(k) implies #[trigger] got[k]
                == want[k] by {
                let j = choose|j: int| 0 <= j < after.len() && #[trigger] after[j].0@ == k;
                assert(got.contains_pair(after[j].0@, after[j].1@));
                if j != i {
                    assert(map.contains_pair(before[j].0@, before[j].1@));
                    assert(after[j].0@ != after[i as int].0@);
                }
            }
            assert(got =~= want);
        }
    } else {
        clips.push((id, entry));
        proof {
            let after = clips@;
            assert(after.drop_last() =~= before);
            assert forall|a: int, b: int| 0 <= a < b < after.len() implies #[trigger] after[a].0@
                != #[trigger] after[b].0@ by {
                assert(after[a] == before[a]);
                if b < before.len() {
                    assert(after[b] == before[b]);
                    assert(before[a].0@ != before[b].0@);
                } else {
                    assert(before[a].0@ != key);
                }
            }
        }
    }
}

impl View for QualityStore {
    type V = StoreView;

    closed spec fn view(&self) -> StoreView {
        StoreView { version: self.version, clips: clip_map(self.clips@) }
    }
}

impl Default for QualityStore {
    fn default() -> (r: QualityStore)
        ensures
            r@ == (StoreView { version: 1, clips: Map::empty() }),
    {
        QualityStore { version: 1, clips: Vec::new() }
    }
}

impl QualityStore {
    #[verifier::type_invariant]
    closed spec fn inv(self) -> bool {
        distinct_ids(self.clips@)
    }

    /// A store with the given entries; of two entries with one id the later counts.
    pub fn from_entries(version: u32, entries: Vec<(String, ClipEntry)>) -> (r: QualityStore)
        ensures
            r@ == (StoreView { version, clips: clip_map(entries@) }),
    {
        let mut clips: Vec<(String, ClipEntry)> = Vec::new();
        let ghost all = entries@;
        assert(all.take(0) =~= Seq::empty());
        for pair in it: entries
            invariant
                it.seq() == all,
                distinct_ids(clips@),
                clip_map(clips@) == clip_map(all.take(it.index())),
        {
            let (id, entry) = pair;
            place(&mut clips, id, entry);
            assert(all.take(it.index() + 1).drop_last() =~= all.take(it.index()));
        }
        assert(all.take(all.len() as int) =~= all);
        QualityStore { version, clips }
    }

    /// The store to start with: the one that was read, or an empty one where none could be.
    pub fn load(read: Option<QualityStore>) -> (r: QualityStore)
        ensures
            read matches Some(store) ==> r@ == store@,
            read is None ==> r@ == (StoreView { version: 1, clips: Map::empty() }),
    {
        match read {
            Some(store) => store,
            None => QualityStore::default(),
        }
    }

    /// The version of the data.
    pub fn version(&self) -> (r: u32)
        ensures
            r == self@.version,
    {
        self.version
    }

    /// All entries, each clip once.
    pub fn entries(&self) -> (r: &Vec<(String, ClipEntry)>)
        ensures
            distinct_ids(r@),
            clip_map(r@) == self@.clips,
    {
        proof {
            use_type_invariant(self);
        }
        &self.clips
    }

    /// The number of clips.
    pub fn clip_count(&self) -> (r: usize)
        ensures
            self@.clips.dom().finite(),
            r == self@.clips.dom().len(),
    {
        proof {
            use_type_invariant(self);
            lemma_clip_map(self.clips@);
        }
        self.clips.len()
    }
}

/// One payload: the clip and its comments.
#[derive(Debug)]
pub struct Ingest {
    pub clip_id: String,
    pub comments: Vec<String>,
}

/// The model of a payload.
#[verifier::ext_equal]
pub struct IngestView {
    pub clip_id: Seq<char>,
    pub comments: Seq<Seq<char>>,
}

impl View for Ingest {
    type V = IngestView;

    open spec fn view(&self) -> IngestView {
        IngestView { clip_id: self.clip_id@, comments: text_views(self.comments@) }
    }
}

/// The strings among the items of an array, in order.
pub open spec fn strings_of(items: Seq<Option<Seq<char>>>) -> Seq<Seq<char>>
    decreases items.len(),
{
    if items.len() == 0 {
        Seq::empty()
    } else {
        match items.last() {
            Some(t) => strings_of(items.drop_last()).push(t),
            None => strings_of(items.drop_last()),
        }
    }
}

/// What a document says: the string under `clipId` names the clip, and the strings in the array
/// under `comments` are its comments. Without that array there are no comments; without that
/// string there is no payload.
pub open spec fn ingest_of(document: Option<Seq<(Seq<char>, FieldView)>>) -> Result<
    IngestView,
    Seq<char>,
> {
    match lookup(document, "clipId"@) {
        Some(FieldView { text: Some(clip_id), .. }) => Ok(
            IngestView {
                clip_id,
                comments: match lookup(document, "comments"@) {
                    Some(FieldView { items: Some(items), .. }) => strings_of(items),
                    _ => Seq::empty(),
                },
            },
        ),
        _ => Err("missing clipId"@),
    }
}

/// What a request body says.
pub open spec fn ingest_of_body(body: Seq<char>) -> Result<IngestView, Seq<char>> {
    match json_document(body) {
        Ok(document) => ingest_of(document),
        Err(e) => Err(e),
    }
}

pub open spec fn ingest_view(r: Result<Ingest, String>) -> Result<IngestView, Seq<char>> {
    match r {
        Ok(i) => Ok(i@),
        Err(e) => Err(e@),
    }
}

/// Reads a payload from a document.
pub fn read_document(document: &Document) -> (r: Result<Ingest, String>)
    ensures
        ingest_view(r) == ingest_of(document@),
{
    let clip_id: String = match document.get("clipId") {
        Some(field) => match &field.text {
            Some(t) => t.clone(),
            None => return Err("missing clipId".to_string()),
        },
        None => return Err("missing clipId".to_string()),
    };
    let mut comments: Vec<String> = Vec::new();
    match document.get("comments") {
        Some(field) => match &field.items {
            Some(items) => {
                let ghost views = item_views(items@);
                assert(views.take(0) =~= Seq::empty());
                let mut i: usize = 0;
                while i < items.len()
                    invariant
                        i <= items.len(),
                        views == item_views(items@),
                        text_views(comments@) == strings_of(views.take(i as int)),
                    decreases items.len() - i,
                {
                    let ghost before = comments@;
                    assert(views.take(i + 1).drop_last() =~= views.take(i as int));
                    assert(views[i as int] == text_view(items@[i as int]));
                    if let Some(t) = &items[i] {
                        comments.push(t.clone());
                        assert(text_views(comments@) =~= text_views(before).push(t@));
                    }
                    i = i + 1;
                }
                assert(views.take(views.len() as int) =~= views);
            },
            None => {
                assert(text_views(comments@) =~= Seq::empty());
            },
        },
        None => {
            assert(text_views(comments@) =~= Seq::empty());
        },
    }
    Ok(Ingest { clip_id, comments })
}

/// Reads a payload from a request body.
pub fn read_body(body: &str) -> (r: Result<Ingest, String>)
    ensures
        ingest_view(r) == ingest_of_body(body@),
{
    match parse_document(body) {
        Ok(document) => read_document(&document),
        Err(e) => Err(e),
    }
}

/// The seconds that the clock has counted since the Unix epoch, or 0 where it stands before it.
pub fn clock_secs(since_epoch: Option<u64>) -> (r: u64)
    ensures
        r == (match since_epoch {
            Some(secs) => secs,
            None => 0,
        }),
{
    match since_epoch {
        Some(secs) => secs,
        None => 0,
    }
}

/// `SystemTime::elapsed` of the Unix epoch, in whole seconds; `None` where the clock stands
/// before the epoch. Nothing is claimed of the result: it is whatever the clock says.
#[verifier::external_body]
fn seconds_since_epoch() -> (r: Option<u64>) {
    match std::time::UNIX_EPOCH.elapsed() {
        Ok(elapsed) => Some(elapsed.as_secs()),
        Err(_) => None,
    }
}

/// The current time in seconds since the Unix epoch.
pub fn now_secs() -> (r: u64) {
    clock_secs(seconds_since_epoch())
}

/// The store with a payload applied at time `ts`: the entry of its clip is replaced.
pub open spec fn with_ingest(store: StoreView, i: IngestView, ts: u64) -> StoreView {
    StoreView {
        version: 1,
        clips: store.clips.insert(i.clip_id, ClipView { ts, comments: i.comments }),
    }
}

impl QualityStore {
    /// Replaces the comments of one clip and returns the new number of clips.
    pub fn apply(&mut self, ingest: Ingest, ts: u64) -> (count: usize)
        ensures
            final(self)@ == with_ingest(old(self)@, ingest@, ts),
            final(self)@.clips.dom().finite(),
            count == final(self)@.clips.dom().len(),
    {
        proof {
            use_type_invariant(&*self);
        }
        let mut clips: Vec<(String, ClipEntry)> = Vec::new();
        std::mem::swap(&mut clips, &mut self.clips);
        place(&mut clips, ingest.clip_id, ClipEntry { ts, comments: ingest.comments });
        self.clips = clips;
        self.version = 1;
        self.clip_count()
    }

    /// Apply one request body: replace its clip's comments, stamped with the current time.
    /// Returns the clip's id and the new number of clips.
    pub fn handle_ingest(&mut self, body: &str) -> (r: Result<(String, usize), String>)
        ensures
            match ingest_of_body(body@) {
                Err(e) => {
                    &&& r is Err
                    &&& r->Err_0@ == e
                    &&& final(self)@ == old(self)@
                },
                Ok(i) => {
                    &&& r is Ok
                    &&& r->Ok_0.0@ == i.clip_id
                    &&& final(self)@.clips.dom().finite()
                    &&& r->Ok_0.1 == final(self)@.clips.dom().len()
                    &&& final(self)@ == with_ingest(
                        old(self)@,
                        i,
                        final(self)@.clips[i.clip_id].ts,
                    )
                },
            },
    {
        let ingest = match read_body(body) {
            Ok(ingest) => ingest,
            Err(e) => return Err(e),
        };
        let clip_id = ingest.clip_id.clone();
        let count: usize = self.apply(ingest, now_secs());
        Ok((clip_id, count))
    }

    /// Forgets every clip.
    pub fn clear(&mut self)
        ensures
            final(self)@ == (StoreView { version: old(self)@.version, clips: Map::empty() }),
    {
        self.clips = Vec::new();
    }
}

/// A payload replaces what was known of its clip and touches no other clip: the number of clips
/// grows by one exactly where the clip is new, and of two payloads for one clip only the later
/// one shows.
pub proof fn ingest_replaces_its_clip(
    store: StoreView,
    i: IngestView,
    ts: u64,
    j: IngestView,
    later: u64,
)
    requires
        store.clips.dom().finite(),
    ensures
        ({
            let after = with_ingest(store, i, ts);
            &&& after.clips[i.clip_id] == ClipView { ts, comments: i.comments }
            &&& forall|id: Seq<char>|
                id != i.clip_id ==> (#[trigger] after.clips.contains_key(id)
                    <==> store.clips.contains_key(id)) && after.clips[id] == store.clips[id]
            &&& after.clips.dom().len() == store.clips.dom().len() + (
            if store.clips.contains_key(i.clip_id) {
                0int
            } else {
                1int
            })
            &&& j.clip_id == i.clip_id ==> with_ingest(after, j, later) == with_ingest(
                store,
                j,
                later,
            )
            &&& j.clip_id != i.clip_id ==> with_ingest(after, j, later) == with_ingest(
                with_ingest(store, j, later),
                i,
                ts,
            )
        }),
{
    let after = with_ingest(store, i, ts);
    assert(with_ingest(after, j, later).clips =~= if j.clip_id == i.clip_id {
        with_ingest(store, j, later).clips
    } else {
        with_ingest(with_ingest(store, j, later), i, ts).clips
    });
    assert(after.clips.dom() =~= store.clips.dom().insert(i.clip_id));
}

/// The configuration of the local bridge.
#[derive(Debug)]
pub struct QualityState {
    pub port: u16,
    pub token: String,
}

/// The port that a setting gives: the number it reads as, or the usual port.
pub open spec fn configured_port(setting: Option<Seq<char>>) -> u16 {
    match setting {
        Some(s) => match u16_value(s) {
            Some(port) => port,
            None => QUALITY_PORT,
        },
        None => QUALITY_PORT,
    }
}

/// The token that a setting gives: the setting, or the usual token where it is empty.
pub open spec fn configured_token(setting: Option<Seq<char>>) -> Seq<char> {
    match setting {
        Some(s) => if s.len() > 0 {
            s
        } else {
            QUALITY_TOKEN@
        },
        None => QUALITY_TOKEN@,
    }
}

impl QualityState {
    /// The configuration from the two settings, each `None` where it is not set.
    pub fn configure(port: Option<String>, token: Option<String>) -> (r: QualityState)
        ensures
            r.port == configured_port(text_view(port)),
            r.token@ == configured_token(text_view(token)),
    {
        let port: u16 = match port {
            Some(s) => match parse_u16(s.as_str()) {
                Some(port) => port,
                None => QUALITY_PORT,
            },
            None => QUALITY_PORT,
        };
        let token: String = match token {
            Some(s) => {
                if s.as_str().is_empty() {
                    QUALITY_TOKEN.to_string()
                } else {
                    s
                }
            },
            None => QUALITY_TOKEN.to_string(),
        };
        QualityState { port, token }
    }

    /// What a client needs to connect: the port and the token.
    pub fn quality_conn(&self) -> (r: (u16, String))
        ensures
            r.0 == self.port,
            r.1@ == self.token@,
    {
        (self.port, self.token.clone())
    }
}

// ---------- What is kept of a payload ----------

/// How many of the items are strings.
pub open spec fn strings_among(items: Seq<Option<Seq<char>>>) -> nat {
    items.filter(|t: Option<Seq<char>>| t is Some).len()
}

/// No comment is lost or made up: there are as many comments as there are strings among the items,
/// and an item that is a string is the comment with as many comments before it as there are strings
/// before it. Where every item is a string, the comments are the items, one for one.
pub proof fn comments_are_the_strings(items: Seq<Option<Seq<char>>>)
    ensures
        strings_of(items).len() == strings_among(items),
        forall|i: int|
            0 <= i < items.len() && (#[trigger] items[i]) is Some ==> strings_among(items.take(i))
                < strings_of(items).len() && strings_of(items)[strings_among(items.take(i)) as int]
                == items[i]->Some_0,
        (forall|i: int| 0 <= i < items.len() ==> (#[trigger] items[i]) is Some) ==> {
            &&& strings_of(items).len() == items.len()
            &&& forall|i: int|
                0 <= i < items.len() ==> #[trigger] strings_of(items)[i] == items[i]->Some_0
        },
    decreases items.len(),
{
    let p = |t: Option<Seq<char>>| t is Some;
    reveal(Seq::filter);
    if items.len() > 0 {
        let rest = items.drop_last();
        comments_are_the_strings(rest);
        let last = items.len() - 1;
        assert(items.take(last) =~= rest);
        assert forall|i: int| 0 <= i < last implies #[trigger] items[i] == rest[i] && items.take(i)
            == rest.take(i) by {
            assert(items.take(i) =~= rest.take(i));
        }
        assert forall|i: int| 0 <= i < items.len() && (#[trigger] items[i]) is Some implies
            strings_among(items.take(i)) < strings_of(items).len() && strings_of(
            items,
        )[strings_among(items.take(i)) as int] == items[i]->Some_0 by {
            if i < last {
                assert(rest[i] == items[i]);
                assert(strings_among(rest.take(i)) < strings_of(rest).len());
            }
        }
        if forall|i: int| 0 <= i < items.len() ==> (#[trigger] items[i]) is Some {
            assert forall|i: int| 0 <= i < rest.len() implies (#[trigger] rest[i]) is Some by {
                assert(rest[i] == items[i]);
            }
            assert(items[last] is Some);
            assert forall|i: int| 0 <= i < items.len() implies #[trigger] strings_of(items)[i]
                == items[i]->Some_0 by {
                if i < last {
                    assert(strings_of(rest)[i] == rest[i]->Some_0);
                }
            }
        }
    }
}

/// A payload names its clip by the string under `clipId` and is refused without one; its comments
/// are the strings of the array under `comments`, and none where there is no array.
pub proof fn payload_is_what_its_members_say(
    document: Option<Seq<(Seq<char>, FieldView)>>,
    clip: Option<FieldView>,
    comments: Option<FieldView>,
)
    requires
        clip == lookup(document, "clipId"@),
        comments == lookup(document, "comments"@),
    ensures
        clip is None || clip->Some_0.text is None ==> ingest_of(document) == Err::<
            IngestView,
            Seq<char>,
        >("missing clipId"@),
        clip is Some && clip->Some_0.text is Some ==> {
            &&& ingest_of(document) is Ok
            &&& ingest_of(document)->Ok_0.clip_id == clip->Some_0.text->Some_0
            &&& comments is Some && comments->Some_0.items is Some ==> ingest_of(
                document,
            )->Ok_0.comments == strings_of(comments->Some_0.items->Some_0)
            &&& comments is None || comments->Some_0.items is None ==> ingest_of(
                document,
            )->Ok_0.comments.len() == 0
        },
{
}

/// A body is refused with the parser's message where it is no JSON, and read as its document else.
pub proof fn body_is_its_document(body: Seq<char>)
    ensures
        json_document(body) is Err ==> ingest_of_body(body) is Err && ingest_of_body(body)->Err_0
            == json_document(body)->Err_0,
        json_document(body) is Ok ==> ingest_of_body(body) == ingest_of(json_document(body)->Ok_0),
{
}

/// A store holds for each id the last entry of that id, and no other ids.
pub proof fn last_entry_of_a_clip_counts(clips: Seq<(String, ClipEntry)>, i: int)
    ensures
        0 <= i < clips.len() && (forall|j: int|
            i < j < clips.len() ==> (#[trigger] clips[j]).0@ != clips[i].0@) ==> clip_map(
            clips,
        ).contains_pair(clips[i].0@, clips[i].1@),
        forall|id: Seq<char>| #[trigger]
            clip_map(clips).contains_key(id) ==> exists|j: int|
                0 <= j < clips.len() && (#[trigger] clips[j]).0@ == id,
    decreases clips.len(),
{
    if clips.len() > 0 {
        let rest = clips.drop_last();
        last_entry_of_a_clip_counts(rest, i);
        if 0 <= i < clips.len() - 1 && (forall|j: int|
            i < j < clips.len() ==> (#[trigger] clips[j]).0@ != clips[i].0@) {
            assert(clips[clips.len() - 1].0@ != clips[i].0@);
            assert forall|j: int| i < j < rest.len() implies (#[trigger] rest[j]).0@ != rest[i].0@ by {
                assert(clips[j].0@ != clips[i].0@);
            }
        }
        assert forall|id: Seq<char>| #[trigger] clip_map(clips).contains_key(id) implies exists|
            j: int,
        |
            0 <= j < clips.len() && (#[trigger] clips[j]).0@ == id by {
            if id == clips.last().0@ {
                assert(clips[clips.len() - 1].0@ == id);
            } else {
                assert(clip_map(rest).contains_key(id));
                let j = choose|j: int| 0 <= j < rest.len() && (#[trigger] rest[j]).0@ == id;
                assert(clips[j].0@ == id);
            }
        }
    }
}

/// A payload that is applied leaves version 1, its own comments and time for its clip, and every
/// other clip as it was.
pub proof fn applied_payload_shows(store: StoreView, i: IngestView, ts: u64, id: Seq<char>)
    ensures
        with_ingest(store, i, ts).version == 1,
        with_ingest(store, i, ts).clips.contains_key(i.clip_id),
        with_ingest(store, i, ts).clips[i.clip_id].ts == ts,
        with_ingest(store, i, ts).clips[i.clip_id].comments == i.comments,
        id != i.clip_id ==> (with_ingest(store, i, ts).clips.contains_key(id)
            <==> store.clips.contains_key(id)),
        id != i.clip_id && store.clips.contains_key(id) ==> with_ingest(store, i, ts).clips[id]
            == store.clips[id],
{
}

/// Entries and payloads are seen as they are: every comment at its place.
pub proof fn entries_are_seen_as_they_are(e: ClipEntry, i: Ingest)
    ensures
        e@.ts == e.ts,
        e@.comments.len() == e.comments@.len(),
        forall|k: int| 0 <= k < e.comments@.len() ==> #[trigger] e@.comments[k] == e.comments@[k]@,
        i@.clip_id == i.clip_id@,
        i@.comments.len() == i.comments@.len(),
        forall|k: int| 0 <= k < i.comments@.len() ==> #[trigger] i@.comments[k] == i.comments@[k]@,
{
}

/// A payload that was read is seen by itself or its error.
pub proof fn reading_is_seen_as_it_is(i: Ingest, e: String)
    ensures
        ingest_view(Ok(i)) == Ok::<IngestView, Seq<char>>(i@),
        ingest_view(Err(e)) == Err::<IngestView, Seq<char>>(e@),
{
}

/// The bridge listens on port 47800 unless the setting is a port, and takes the usual token unless
/// the setting is a text that is not empty.
pub proof fn settings_override(setting: Seq<char>)
    ensures
        configured_port(None) == 47800,
        configured_port(Some(setting)) == (if u16_value(setting) is Some {
            u16_value(setting)->Some_0
        } else {
            47800
        }),
        configured_token(None) == "orochi-local-7Q2vXm"@,
        configured_token(Some(setting)) == (if setting.len() == 0 {
            "orochi-local-7Q2vXm"@
        } else {
            setting
        }),
{
}

/// The entries of two lists are the same where each id and content of one is in the other.
pub proof fn entries_are_compared_by_content(a: Seq<(String, ClipEntry)>, i: int)
    requires
        0 <= i < a.len(),
    ensures
        entry_views(a).len() == a.len(),
        entry_views(a)[i].0 == a[i].0@,
        entry_views(a)[i].1 == a[i].1@,
{
}

/// Each item adds what it is: a string behind others is one more comment at the end, and anything
/// else adds none.
pub proof fn each_string_adds_a_comment(items: Seq<Option<Seq<char>>>, t: Seq<char>)
    ensures
        strings_of(Seq::empty()).len() == 0,
        strings_of(items.push(Some(t))) == strings_of(items).push(t),
        strings_of(items.push(None)) == strings_of(items),
{
    assert(items.push(Some(t)).drop_last() =~= items);
    assert(items.push(None).drop_last() =~= items);
}

} // verus!
