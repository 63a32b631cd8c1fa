//! The clip table: every captured text clip, kept without duplicates (one
//! row per content hash) and listed in display order, pinned clips first
//! and then newest first. Search, pinning, deletion and retention are
//! stated over that list.
use vstd::prelude::*;

use crate::pattern::{anywhere, like_match, like_matches};
use crate::text::{
    chars_less, chars_of, lemma_text_less_irreflexive, lemma_text_less_total,
    lemma_text_less_transitive, same_chars, text_less,
};

verus! {

/// One clip of the history, as the table stores it.
#[derive(Debug, PartialEq)]
pub struct ClipEntry {
    pub id: i64,
    pub content: String,
    pub content_hash: String,
    pub content_type: String,
    pub source_app: Option<String>,
    pub is_pinned: bool,
    pub tags: Option<String>,
    pub created_at: String,
}

/// A copy of an optional text.
pub fn copy_opt_text(o: &Option<String>) -> (r: Option<String>)
    ensures
        r == *o,
{
    match o {
        Some(s) => Some(s.clone()),
        None => None,
    }
}

impl Clone for ClipEntry {
    fn clone(&self) -> (r: Self)
        ensures
            r == *self,
    {
        ClipEntry {
            id: self.id,
            content: self.content.clone(),
            content_hash: self.content_hash.clone(),
            content_type: self.content_type.clone(),
            source_app: copy_opt_text(&self.source_app),
            is_pinned: self.is_pinned,
            tags: copy_opt_text(&self.tags),
            created_at: self.created_at.clone(),
        }
    }
}

/// Why a table operation was refused.
#[derive(Debug, PartialEq, Eq, Clone, Copy)]
pub enum StoreError {
    /// No clip has the requested id.
    NotFound,
    /// Every clip id has been handed out.
    Full,
    /// Rows handed to `Database::from_rows` break the table's rules.
    InvalidRows,
}

impl StoreError {
    /// The message that describes the error.
    pub open spec fn spec_message(self) -> Seq<char> {
        match self {
            StoreError::NotFound => "Query returned no rows"@,
            StoreError::Full => "database or disk is full"@,
            StoreError::InvalidRows => "stored clips are inconsistent"@,
        }
    }

    /// The message that describes the error.
    pub fn message(&self) -> (r: String)
        ensures
            r@ == self.spec_message(),
    {
        match self {
            StoreError::NotFound => String::from_str("Query returned no rows"),
            StoreError::Full => String::from_str("database or disk is full"),
            StoreError::InvalidRows => String::from_str("stored clips are inconsistent"),
        }
    }
}

/// Display order: `a` is listed before `b` when `a` is pinned and `b` is
/// not; among clips of equal pin state the newer `created_at` (binary text
/// order) comes first; among clips of equal time the higher id comes first.
pub open spec fn shown_before(a: ClipEntry, b: ClipEntry) -> bool {
    if a.is_pinned != b.is_pinned {
        a.is_pinned
    } else if a.created_at@ != b.created_at@ {
        text_less(b.created_at@, a.created_at@)
    } else {
        a.id > b.id
    }
}

/// `a` is listed before `b`, and the two clips have different ids and
/// different content hashes.
pub open spec fn ordered_pair(a: ClipEntry, b: ClipEntry) -> bool {
    &&& shown_before(a, b)
    &&& a.id != b.id
    &&& a.content_hash@ != b.content_hash@
}

/// The rows are in display order, with no id and no content hash twice.
pub open spec fn well_ordered(s: Seq<ClipEntry>) -> bool {
    forall|i: int, j: int| 0 <= i < j < s.len() ==> ordered_pair(#[trigger] s[i], #[trigger] s[j])
}

/// How many leading rows of `s` are listed before `e`: where `e` goes.
pub open spec fn rank_pos(s: Seq<ClipEntry>, e: ClipEntry) -> nat
    decreases s.len(),
{
    if s.len() > 0 && shown_before(s[0], e) {
        1 + rank_pos(s.drop_first(), e)
    } else {
        0
    }
}

/// `s` with `e` put in its place in display order.
pub open spec fn placed(s: Seq<ClipEntry>, e: ClipEntry) -> Seq<ClipEntry> {
    s.insert(rank_pos(s, e) as int, e)
}

/// Whether a clip is kept by a search for `query`, pinned clips only or not.
/// An empty query keeps every clip; any other keeps the clips whose content
/// matches the pattern `%query%`.
pub open spec fn selected(e: ClipEntry, query: Seq<char>, pinned_only: bool) -> bool {
    &&& (pinned_only ==> e.is_pinned)
    &&& (query.len() > 0 ==> like_match(anywhere(query), e.content@))
}

/// Where a page starts: an offset past `i64::MAX` reaches the query as a
/// negative `OFFSET`, which counts as none.
pub open spec fn page_start(offset: usize) -> nat {
    if offset > i64::MAX {
        0
    } else {
        offset as nat
    }
}

/// The page of `s` that starts at `page_start(offset)` and holds at most
/// `limit` rows.
pub open spec fn page(s: Seq<ClipEntry>, offset: usize, limit: usize) -> Seq<ClipEntry> {
    let start = if page_start(offset) <= s.len() {
        page_start(offset) as int
    } else {
        s.len() as int
    };
    let rest = s.skip(start);
    if limit as int <= rest.len() {
        rest.take(limit as int)
    } else {
        rest
    }
}

/// The rows that a retention pass keeps: a row stays if it is pinned or if
/// fewer than `keep` unpinned rows are listed before it, i.e. the `keep`
/// newest unpinned rows stay.
pub open spec fn kept(s: Seq<ClipEntry>, keep: nat) -> Seq<ClipEntry>
    decreases s.len(),
{
    if s.len() == 0 {
        s
    } else {
        let before = kept(s.drop_last(), keep);
        if s.last().is_pinned || unpinned_count(s.drop_last()) < keep {
            before.push(s.last())
        } else {
            before
        }
    }
}

/// How many rows of `s` are not pinned.
pub open spec fn unpinned_count(s: Seq<ClipEntry>) -> nat
    decreases s.len(),
{
    if s.len() == 0 {
        0
    } else {
        unpinned_count(s.drop_last()) + if s.last().is_pinned {
            0nat
        } else {
            1nat
        }
    }
}

/// Whether `rows` can make up a table whose last id is `last_id`: every id
/// in `1..=last_id`, and no id and no content hash twice.
pub open spec fn valid_rows(rows: Seq<ClipEntry>, last_id: i64) -> bool {
    &&& last_id >= 0
    &&& forall|i: int| 0 <= i < rows.len() ==> 0 < #[trigger] rows[i].id <= last_id
    &&& forall|i: int, j: int|
        0 <= i < rows.len() && 0 <= j < rows.len() && i != j ==> (#[trigger] rows[i]).id
            != (#[trigger] rows[j]).id && rows[i].content_hash@ != rows[j].content_hash@
}

/// The state of the clip table: its rows in display order and the last id
/// handed out (ids are never handed out twice).
pub struct ClipTable {
    pub rows: Seq<ClipEntry>,
    pub last_id: i64,
}

impl ClipTable {
    /// The table's rules: display order, unique ids, unique content hashes,
    /// and every id in `1..=last_id`.
    pub open spec fn wf(self) -> bool {
        &&& well_ordered(self.rows)
        &&& self.last_id >= 0
        &&& forall|i: int|
            0 <= i < self.rows.len() ==> 0 < #[trigger] self.rows[i].id <= self.last_id
    }

    /// Whether some row has content hash `h`.
    pub open spec fn has_hash(self, h: Seq<char>) -> bool {
        exists|i: int| 0 <= i < self.rows.len() && #[trigger] self.rows[i].content_hash@ == h
    }

    /// The index of the row with content hash `h` (the only one, in a
    /// table that keeps its rules).
    pub open spec fn hash_index(self, h: Seq<char>) -> int {
        choose|i: int| 0 <= i < self.rows.len() && #[trigger] self.rows[i].content_hash@ == h
    }

    /// Whether some row has id `id`.
    pub open spec fn has_id(self, id: i64) -> bool {
        exists|i: int| 0 <= i < self.rows.len() && #[trigger] self.rows[i].id == id
    }

    /// The index of the row with id `id` (the only one, in a table that
    /// keeps its rules).
    pub open spec fn id_index(self, id: i64) -> int {
        choose|i: int| 0 <= i < self.rows.len() && #[trigger] self.rows[i].id == id
    }

    /// Inserting `e`: every insertion first takes the next id, and fails
    /// if every id has been handed out. A clip whose content hash is already
    /// in the table then only takes `e`'s `created_at` (and moves
    /// accordingly), and its own id is the answer; the id taken stays used.
    /// Otherwise `e` is added under the id taken, which is the answer.
    pub open spec fn after_insert(self, e: ClipEntry) -> (ClipTable, Result<i64, StoreError>) {
        if self.last_id == i64::MAX {
            (self, Err(StoreError::Full))
        } else {
            let id = (self.last_id + 1) as i64;
            if self.has_hash(e.content_hash@) {
                let i = self.hash_index(e.content_hash@);
                let row = ClipEntry { created_at: e.created_at, ..self.rows[i] };
                (ClipTable { rows: placed(self.rows.remove(i), row), last_id: id }, Ok(row.id))
            } else {
                (
                    ClipTable { rows: placed(self.rows, ClipEntry { id: id, ..e }), last_id: id },
                    Ok(id),
                )
            }
        }
    }

    /// The clips that a search returns: those it selects, in display
    /// order, paged.
    pub open spec fn search_result(
        self,
        query: Seq<char>,
        limit: usize,
        offset: usize,
        pinned_only: bool,
    ) -> Seq<ClipEntry> {
        page(self.rows.filter(|e: ClipEntry| selected(e, query, pinned_only)), offset, limit)
    }

    /// Toggling the pin of clip `id`: the clip flips its pin state and
    /// moves accordingly, and the new state is the answer; without such a
    /// clip nothing changes.
    pub open spec fn after_toggle_pin(self, id: i64) -> (ClipTable, Result<bool, StoreError>) {
        if self.has_id(id) {
            let i = self.id_index(id);
            let row = ClipEntry { is_pinned: !self.rows[i].is_pinned, ..self.rows[i] };
            (ClipTable { rows: placed(self.rows.remove(i), row), ..self }, Ok(row.is_pinned))
        } else {
            (self, Err(StoreError::NotFound))
        }
    }

    /// Deleting clip `id`, if there is one.
    pub open spec fn after_delete(self, id: i64) -> ClipTable {
        if self.has_id(id) {
            ClipTable { rows: self.rows.remove(self.id_index(id)), ..self }
        } else {
            self
        }
    }

    /// Retention: all pinned clips and the `keep` newest unpinned clips
    /// stay; the answer is how many clips were deleted.
    pub open spec fn after_cleanup(self, keep: usize) -> (ClipTable, usize) {
        let rows = kept(self.rows, keep as nat);
        (ClipTable { rows: rows, ..self }, (self.rows.len() - rows.len()) as usize)
    }
}

// ---------------------------------------------------------------------
// The display order is a strict total order on clips with distinct ids.

/// Nothing is listed before itself.
pub proof fn lemma_shown_before_irreflexive(a: ClipEntry)
    ensures
        !shown_before(a, a),
{
    lemma_text_less_irreflexive(a.created_at@);
}

/// The display order is transitive.
pub proof fn lemma_shown_before_transitive(a: ClipEntry, b: ClipEntry, c: ClipEntry)
    requires
        shown_before(a, b),
        shown_before(b, c),
    ensures
        shown_before(a, c),
{
    if a.is_pinned == b.is_pinned && b.is_pinned == c.is_pinned {
        if a.created_at@ != b.created_at@ && b.created_at@ != c.created_at@ {
            lemma_text_less_transitive(c.created_at@, b.created_at@, a.created_at@);
            if a.created_at@ == c.created_at@ {
                lemma_text_less_irreflexive(a.created_at@);
            }
        }
    }
}

/// The display order never holds both ways.
pub proof fn lemma_shown_before_asymmetric(a: ClipEntry, b: ClipEntry)
    requires
        shown_before(a, b),
    ensures
        !shown_before(b, a),
{
    if shown_before(b, a) {
        lemma_shown_before_transitive(a, b, a);
        lemma_shown_before_irreflexive(a);
    }
}

/// Of two clips with different ids, one is listed before the other.
pub proof fn lemma_shown_before_total(a: ClipEntry, b: ClipEntry)
    requires
        a.id != b.id,
    ensures
        shown_before(a, b) || shown_before(b, a),
{
    lemma_text_less_total(a.created_at@, b.created_at@);
}

/// Where `e` goes: every row before that place is listed before `e`, and
/// the row at that place (if any) is not.
pub proof fn lemma_rank_pos(s: Seq<ClipEntry>, e: ClipEntry)
    ensures
        rank_pos(s, e) <= s.len(),
        forall|k: int| 0 <= k < rank_pos(s, e) ==> shown_before(#[trigger] s[k], e),
        rank_pos(s, e) < s.len() ==> !shown_before(s[rank_pos(s, e) as int], e),
    decreases s.len(),
{
    if s.len() > 0 && shown_before(s[0], e) {
        lemma_rank_pos(s.drop_first(), e);
        assert forall|k: int| 0 <= k < rank_pos(s, e) implies shown_before(#[trigger] s[k], e) by {
            if k > 0 {
                assert(s[k] == s.drop_first()[k - 1]);
            }
        }
    }
}

/// Putting a clip in its place keeps the rows well ordered, if its id and
/// its content hash are new to them.
pub proof fn lemma_placed_well_ordered(s: Seq<ClipEntry>, e: ClipEntry)
    requires
        well_ordered(s),
        forall|k: int|
            0 <= k < s.len() ==> (#[trigger] s[k]).id != e.id && s[k].content_hash@
                != e.content_hash@,
    ensures
        well_ordered(placed(s, e)),
        placed(s, e).len() == s.len() + 1,
        forall|k: int| 0 <= k < s.len() ==> placed(s, e).contains(#[trigger] s[k]),
        placed(s, e).contains(e),
        forall|k: int|
            0 <= k < placed(s, e).len() ==> #[trigger] placed(s, e)[k] == e || s.contains(
                placed(s, e)[k],
            ),
{
    lemma_rank_pos(s, e);
    let p = rank_pos(s, e) as int;
    let t = placed(s, e);
    assert(t[p] == e);
    if p < s.len() {
        lemma_shown_before_total(s[p], e);
    }
    assert forall|k: int| p <= k < s.len() implies shown_before(e, #[trigger] s[k]) by {
        lemma_shown_before_total(s[p], e);
        if k > p {
            assert(ordered_pair(s[p], s[k]));
            lemma_shown_before_transitive(e, s[p], s[k]);
        }
    }
    assert forall|i: int, j: int| 0 <= i < j < t.len() implies ordered_pair(
        #[trigger] t[i],
        #[trigger] t[j],
    ) by {
        if i < p && j < p {
            assert(t[i] == s[i] && t[j] == s[j]);
        } else if i < p && j == p {
            assert(t[i] == s[i]);
        } else if i < p {
            assert(t[i] == s[i] && t[j] == s[j - 1]);
        } else if i == p {
            assert(t[j] == s[j - 1]);
        } else {
            assert(t[i] == s[i - 1] && t[j] == s[j - 1]);
        }
    }
    assert forall|k: int| 0 <= k < s.len() implies t.contains(#[trigger] s[k]) by {
        if k < p {
            assert(t[k] == s[k]);
        } else {
            assert(t[k + 1] == s[k]);
        }
    }
    assert forall|k: int| 0 <= k < t.len() implies #[trigger] t[k] == e || s.contains(t[k]) by {
        if k < p {
            assert(t[k] == s[k]);
        } else if k > p {
            assert(t[k] == s[k - 1]);
        }
    }
}

/// Removing a row keeps the rows well ordered.
pub proof fn lemma_remove_well_ordered(s: Seq<ClipEntry>, i: int)
    requires
        well_ordered(s),
        0 <= i < s.len(),
    ensures
        well_ordered(s.remove(i)),
        forall|k: int|
            0 <= k < s.len() && k != i ==> (#[trigger] s[k]).id != s[i].id && s[k].content_hash@
                != s[i].content_hash@,
{
    let t = s.remove(i);
    assert forall|a: int, b: int| 0 <= a < b < t.len() implies ordered_pair(
        #[trigger] t[a],
        #[trigger] t[b],
    ) by {
        let a0 = if a < i {
            a
        } else {
            a + 1
        };
        let b0 = if b < i {
            b
        } else {
            b + 1
        };
        assert(t[a] == s[a0] && t[b] == s[b0]);
    }
    assert forall|k: int| 0 <= k < s.len() && k != i implies (#[trigger] s[k]).id != s[i].id
        && s[k].content_hash@ != s[i].content_hash@ by {
        if k < i {
            assert(ordered_pair(s[k], s[i]));
        } else {
            assert(ordered_pair(s[i], s[k]));
        }
    }
}

/// A retention pass keeps the rows well ordered, keeps only rows of the
/// table, and keeps every pinned row.
pub proof fn lemma_kept(s: Seq<ClipEntry>, keep: nat)
    requires
        well_ordered(s),
    ensures
        well_ordered(kept(s, keep)),
        kept(s, keep).len() <= s.len(),
        forall|j: int|
            0 <= j < kept(s, keep).len() ==> exists|i: int|
                0 <= i < s.len() && s[i] == #[trigger] kept(s, keep)[j],
    decreases s.len(),
{
    if s.len() > 0 {
        let s0 = s.drop_last();
        assert forall|i: int, j: int| 0 <= i < j < s0.len() implies ordered_pair(
            #[trigger] s0[i],
            #[trigger] s0[j],
        ) by {
            assert(s0[i] == s[i] && s0[j] == s[j]);
        }
        lemma_kept(s0, keep);
        let before = kept(s0, keep);
        let t = kept(s, keep);
        if s.last().is_pinned || unpinned_count(s0) < keep {
            assert(t == before.push(s.last()));
            assert forall|a: int, b: int| 0 <= a < b < t.len() implies ordered_pair(
                #[trigger] t[a],
                #[trigger] t[b],
            ) by {
                if b == t.len() - 1 {
                    let i = choose|i: int| 0 <= i < s0.len() && s0[i] == before[a];
                    assert(s[i] == t[a]);
                    assert(ordered_pair(s[i], s[s.len() - 1]));
                } else {
                    assert(t[a] == before[a] && t[b] == before[b]);
                }
            }
            assert forall|j: int| 0 <= j < t.len() implies exists|i: int|
                0 <= i < s.len() && s[i] == #[trigger] t[j] by {
                if j == t.len() - 1 {
                    assert(s[s.len() - 1] == t[j]);
                } else {
                    let i = choose|i: int| 0 <= i < s0.len() && s0[i] == before[j];
                    assert(s[i] == t[j]);
                }
            }
        } else {
            assert forall|j: int| 0 <= j < t.len() implies exists|i: int|
                0 <= i < s.len() && s[i] == #[trigger] t[j] by {
                let i = choose|i: int| 0 <= i < s0.len() && s0[i] == before[j];
                assert(s[i] == t[j]);
            }
        }
    }
}

/// Whether clip `a` is listed before clip `b`.
pub fn shown_before_exec(a: &ClipEntry, b: &ClipEntry) -> (r: bool)
    ensures
        r == shown_before(*a, *b),
{
    if a.is_pinned != b.is_pinned {
        a.is_pinned
    } else {
        let at = chars_of(a.created_at.as_str());
        let bt = chars_of(b.created_at.as_str());
        if !same_chars(&at, &bt) {
            chars_less(&bt, &at)
        } else {
            a.id > b.id
        }
    }
}

/// Where `e` goes among `rows`.
pub fn rank_position(rows: &Vec<ClipEntry>, e: &ClipEntry) -> (r: usize)
    ensures
        r == rank_pos(rows@, *e),
{
    let mut i: usize = 0;
    assert(rows@.skip(0) =~= rows@);
    while i < rows.len() && shown_before_exec(&rows[i], e)
        invariant
            i <= rows.len(),
            rank_pos(rows@, *e) == i + rank_pos(rows@.skip(i as int), *e),
        decreases rows.len() - i,
    {
        assert(rows@.skip(i as int).drop_first() =~= rows@.skip(i + 1));
        i = i + 1;
    }
    i
}

/// Whether clip `e` is kept by a search; `query` is the query's characters
/// and `pattern` the pattern `%query%`.
fn selects(e: &ClipEntry, query: &Vec<char>, pattern: &Vec<char>, pinned_only: bool) -> (r: bool)
    requires
        pattern@ == anywhere(query@),
    ensures
        r == selected(*e, query@, pinned_only),
{
    if pinned_only && !e.is_pinned {
        false
    } else if query.len() == 0 {
        true
    } else {
        let content = chars_of(e.content.as_str());
        like_matches(pattern, &content)
    }
}

/// The clip table.
pub struct Database {
    rows: Vec<ClipEntry>,
    last_id: i64,
}

impl View for Database {
    type V = ClipTable;

    closed spec fn view(&self) -> ClipTable {
        ClipTable { rows: self.rows@, last_id: self.last_id }
    }
}

impl Database {
    #[verifier::type_invariant]
    spec fn inv(self) -> bool {
        self@.wf()
    }

    /// An empty table that has handed out no id yet.
    pub fn new() -> (db: Database)
        ensures
            db@.rows.len() == 0,
            db@.last_id == 0,
    {
        Database { rows: Vec::new(), last_id: 0 }
    }

    /// The table's rows, in display order.
    pub fn entries(&self) -> (r: &Vec<ClipEntry>)
        ensures
            r@ == self@.rows,
    {
        &self.rows
    }

    /// Establishes, for a caller's proofs, that the table keeps its rules
    /// (display order, unique ids and content hashes, ids in
    /// `1..=last_id`); it does nothing when run.
    pub fn keeps_rules(&self)
        ensures
            self@.wf(),
    {
        proof {
            use_type_invariant(self);
        }
    }

    /// The last id handed out.
    pub fn last_id(&self) -> (r: i64)
        ensures
            r == self@.last_id,
    {
        self.last_id
    }

    /// The index of the row whose content hash is `h`, if any.
    fn find_hash(&self, h: &String) -> (r: Option<usize>)
        ensures
            match r {
                Some(i) => i < self@.rows.len() && self@.rows[i as int].content_hash@ == h@
                    && self@.hash_index(h@) == i,
                None => !self@.has_hash(h@),
            },
    {
        proof {
            use_type_invariant(self);
        }
        let mut i: usize = 0;
        while i < self.rows.len()
            invariant
                i <= self.rows@.len(),
                self@.wf(),
                forall|k: int| 0 <= k < i ==> self.rows@[k].content_hash@ != h@,
            decreases self.rows.len() - i,
        {
            if self.rows[i].content_hash == *h {
                proof {
                    let ii = i as int;
                    assert(self@.rows[ii].content_hash@ == h@);
                    assert(self@.has_hash(h@));
                    let j = self@.hash_index(h@);
                    if j != ii {
                        if j < ii {
                            assert(ordered_pair(self@.rows[j], self@.rows[ii]));
                        } else {
                            assert(ordered_pair(self@.rows[ii], self@.rows[j]));
                        }
                    }
                }
                return Some(i);
            }
            i = i + 1;
        }
        None
    }

    /// The index of the row with id `id`, if any.
    fn find_id(&self, id: i64) -> (r: Option<usize>)
        ensures
            match r {
                Some(i) => i < self@.rows.len() && self@.rows[i as int].id == id && self@.id_index(
                    id,
                ) == i,
                None => !self@.has_id(id),
            },
    {
        proof {
            use_type_invariant(self);
        }
        let mut i: usize = 0;
        while i < self.rows.len()
            invariant
                i <= self.rows@.len(),
                self@.wf(),
                forall|k: int| 0 <= k < i ==> self.rows@[k].id != id,
            decreases self.rows.len() - i,
        {
            if self.rows[i].id == id {
                proof {
                    let ii = i as int;
                    assert(self@.rows[ii].id == id);
                    assert(self@.has_id(id));
                    let j = self@.id_index(id);
                    if j != ii {
                        if j < ii {
                            assert(ordered_pair(self@.rows[j], self@.rows[ii]));
                        } else {
                            assert(ordered_pair(self@.rows[ii], self@.rows[j]));
                        }
                    }
                }
                return Some(i);
            }
            i = i + 1;
        }
        None
    }

    /// Inserts a clip. Every insertion takes the next id (and fails with
    /// `StoreError::Full` when none is left). A clip whose content hash is
    /// already in the table keeps its row and only takes `entry.created_at`;
    /// its id is returned. Any other clip gets the id taken, which is
    /// returned.
    pub fn insert(&mut self, entry: &ClipEntry) -> (r: Result<i64, StoreError>)
        ensures
            (final(self)@, r) == old(self)@.after_insert(*entry),
    {
        proof {
            use_type_invariant(&*self);
        }
        if self.last_id == i64::MAX {
            return Err(StoreError::Full);
        }
        let next_id = self.last_id + 1;
        match self.find_hash(&entry.content_hash) {
            Some(i) => {
                proof {
                    lemma_remove_well_ordered(self.rows@, i as int);
                }
                let mut rows: Vec<ClipEntry> = Vec::new();
                std::mem::swap(&mut rows, &mut self.rows);
                let mut row = rows.remove(i);
                row.created_at = entry.created_at.clone();
                let pos = rank_position(&rows, &row);
                proof {
                    assert forall|k: int| 0 <= k < rows@.len() implies (#[trigger] rows@[k]).id
                        != row.id && rows@[k].content_hash@ != row.content_hash@ by {
                        let k0 = if k < i {
                            k
                        } else {
                            k + 1
                        };
                        assert(rows@[k] == old(self)@.rows[k0]);
                    }
                    lemma_placed_well_ordered(rows@, row);
                    lemma_rank_pos(rows@, row);
                }
                let id = row.id;
                rows.insert(pos, row);
                proof {
                    let t = rows@;
                    assert forall|k: int| 0 <= k < t.len() implies 0 < #[trigger] t[k].id
                        <= self.last_id by {
                        assert(t.contains(t[k]));
                    }
                }
                self.last_id = next_id;
                self.rows = rows;
                Ok(id)
            },
            None => {
                let id = next_id;
                let row = ClipEntry {
                    id: id,
                    content: entry.content.clone(),
                    content_hash: entry.content_hash.clone(),
                    content_type: entry.content_type.clone(),
                    source_app: copy_opt_text(&entry.source_app),
                    is_pinned: entry.is_pinned,
                    tags: copy_opt_text(&entry.tags),
                    created_at: entry.created_at.clone(),
                };
                let mut rows: Vec<ClipEntry> = Vec::new();
                std::mem::swap(&mut rows, &mut self.rows);
                self.last_id = id;
                let pos = rank_position(&rows, &row);
                proof {
                    lemma_placed_well_ordered(rows@, row);
                    lemma_rank_pos(rows@, row);
                }
                rows.insert(pos, row);
                self.rows = rows;
                Ok(id)
            },
        }
    }

    /// Flips the pin of clip `id` and returns its new pin state; without
    /// such a clip, `StoreError::NotFound`.
    pub fn toggle_pin(&mut self, id: i64) -> (r: Result<bool, StoreError>)
        ensures
            (final(self)@, r) == old(self)@.after_toggle_pin(id),
    {
        proof {
            use_type_invariant(&*self);
        }
        match self.find_id(id) {
            Some(i) => {
                proof {
                    lemma_remove_well_ordered(self.rows@, i as int);
                }
                let mut rows: Vec<ClipEntry> = Vec::new();
                std::mem::swap(&mut rows, &mut self.rows);
                let mut row = rows.remove(i);
                row.is_pinned = !row.is_pinned;
                let pos = rank_position(&rows, &row);
                proof {
                    assert forall|k: int| 0 <= k < rows@.len() implies (#[trigger] rows@[k]).id
                        != row.id && rows@[k].content_hash@ != row.content_hash@ by {
                        let k0 = if k < i {
                            k
                        } else {
                            k + 1
                        };
                        assert(rows@[k] == old(self)@.rows[k0]);
                    }
                    lemma_placed_well_ordered(rows@, row);
                    lemma_rank_pos(rows@, row);
                }
                let pinned = row.is_pinned;
                rows.insert(pos, row);
                proof {
                    let t = rows@;
                    assert forall|k: int| 0 <= k < t.len() implies 0 < #[trigger] t[k].id
                        <= self.last_id by {
                        assert(t.contains(t[k]));
                    }
                }
                self.rows = rows;
                Ok(pinned)
            },
            None => Err(StoreError::NotFound),
        }
    }

    /// Deletes clip `id`, if there is one.
    pub fn delete(&mut self, id: i64) -> (r: Result<(), StoreError>)
        ensures
            r is Ok,
            final(self)@ == old(self)@.after_delete(id),
    {
        proof {
            use_type_invariant(&*self);
        }
        match self.find_id(id) {
            Some(i) => {
                proof {
                    lemma_remove_well_ordered(self.rows@, i as int);
                }
                let mut rows: Vec<ClipEntry> = Vec::new();
                std::mem::swap(&mut rows, &mut self.rows);
                rows.remove(i);
                self.rows = rows;
                Ok(())
            },
            None => Ok(()),
        }
    }

    /// Deletes every unpinned clip but the `keep_count` newest, and returns
    /// how many clips were deleted.
    pub fn cleanup(&mut self, keep_count: usize) -> (r: Result<usize, StoreError>)
        ensures
            r is Ok,
            (final(self)@, r->Ok_0) == old(self)@.after_cleanup(keep_count),
    {
        proof {
            use_type_invariant(&*self);
        }
        let n = self.rows.len();
        let mut out: Vec<ClipEntry> = Vec::new();
        let mut unpinned: usize = 0;
        let mut i: usize = 0;
        while i < n
            invariant
                n == self.rows@.len(),
                i <= n,
                unpinned as nat == unpinned_count(self.rows@.take(i as int)),
                unpinned <= i,
                out@ == kept(self.rows@.take(i as int), keep_count as nat),
            decreases n - i,
        {
            let ghost pre = self.rows@.take(i as int);
            assert(self.rows@.take(i + 1).drop_last() =~= pre);
            let e = &self.rows[i];
            if e.is_pinned || unpinned < keep_count {
                out.push(e.clone());
            }
            if !e.is_pinned {
                unpinned = unpinned + 1;
            }
            i = i + 1;
        }
        assert(self.rows@.take(n as int) =~= self.rows@);
        proof {
            lemma_kept(self.rows@, keep_count as nat);
            let t = out@;
            assert forall|k: int| 0 <= k < t.len() implies 0 < #[trigger] t[k].id
                <= self.last_id by {
                let j = choose|j: int| 0 <= j < self.rows@.len() && self.rows@[j] == t[k];
                assert(self.rows@[j].id == t[k].id);
            }
        }
        let removed = n - out.len();
        self.rows = out;
        Ok(removed)
    }

    /// The clips that `query` selects (all clips for an empty query, else
    /// those whose content matches `%query%`), pinned clips only if
    /// `pinned_only`, in display order, from `offset` on and at most
    /// `limit` of them.
    pub fn search(&self, query: &str, limit: usize, offset: usize, pinned_only: bool) -> (r:
        Result<Vec<ClipEntry>, StoreError>)
        ensures
            r matches Ok(v) && v@ == self@.search_result(query@, limit, offset, pinned_only),
    {
        let q = chars_of(query);
        let mut pattern: Vec<char> = Vec::new();
        pattern.push('%');
        let mut k: usize = 0;
        while k < q.len()
            invariant
                k <= q@.len(),
                pattern@ == seq!['%'] + q@.take(k as int),
            decreases q.len() - k,
        {
            pattern.push(q[k]);
            assert(q@.take(k + 1) =~= q@.take(k as int).push(q@[k as int]));
            k = k + 1;
        }
        pattern.push('%');
        assert(q@.take(q@.len() as int) =~= q@);
        assert(pattern@ =~= anywhere(q@));
        let ghost pred = |e: ClipEntry| selected(e, q@, pinned_only);
        let n = self.rows.len();
        let mut hits: Vec<ClipEntry> = Vec::new();
        let mut i: usize = 0;
        while i < n
            invariant
                n == self.rows@.len(),
                i <= n,
                pattern@ == anywhere(q@),
                q@ == query@,
                pred == (|e: ClipEntry| selected(e, q@, pinned_only)),
                hits@ == self.rows@.take(i as int).filter(pred),
            decreases n - i,
        {
            let e = &self.rows[i];
            let ghost pre = self.rows@.take(i as int);
            assert(self.rows@.take(i + 1) =~= pre.push(*e));
            proof {
                pre.lemma_filter_push(*e, pred);
            }
            if selects(e, &q, &pattern, pinned_only) {
                hits.push(e.clone());
            }
            i = i + 1;
        }
        assert(self.rows@.take(n as int) =~= self.rows@);
        let h = hits.len();
        let big: bool = (offset as u64) > 0x7fff_ffff_ffff_ffffu64;
        let first: usize = if big {
            0
        } else {
            offset
        };
        let start: usize = if first <= h {
            first
        } else {
            h
        };
        let count: usize = if limit <= h - start {
            limit
        } else {
            h - start
        };
        let mut out: Vec<ClipEntry> = Vec::new();
        let mut j: usize = 0;
        while j < count
            invariant
                start + count <= h,
                h == hits@.len(),
                j <= count,
                out@ == hits@.subrange(start as int, start + j),
            decreases count - j,
        {
            out.push(hits[start + j].clone());
            assert(hits@.subrange(start as int, start + j + 1) =~= hits@.subrange(
                start as int,
                start + j,
            ).push(hits@[start + j]));
            j = j + 1;
        }
        assert(out@ =~= page(hits@, offset, limit));
        Ok(out)
    }

    /// A table made of stored rows and the last id handed out, as a
    /// persisted table is read back: the rows end up in display order. Rows
    /// that break the table's rules give `StoreError::InvalidRows`.
    pub fn from_rows(rows: &Vec<ClipEntry>, last_id: i64) -> (r: Result<Database, StoreError>)
        ensures
            match r {
                Ok(db) => {
                    &&& valid_rows(rows@, last_id)
                    &&& db@.wf()
                    &&& db@.last_id == last_id
                    &&& db@.rows.len() == rows@.len()
                    &&& forall|e: ClipEntry| db@.rows.contains(e) <==> rows@.contains(e)
                },
                Err(e) => e == StoreError::InvalidRows && !valid_rows(rows@, last_id),
            },
    {
        if last_id < 0 {
            return Err(StoreError::InvalidRows);
        }
        let n = rows.len();
        let mut t: Vec<ClipEntry> = Vec::new();
        let mut i: usize = 0;
        while i < n
            invariant
                n == rows@.len(),
                i <= n,
                last_id >= 0,
                well_ordered(t@),
                t@.len() == i,
                valid_rows(rows@.take(i as int), last_id),
                forall|e: ClipEntry| t@.contains(e) <==> rows@.take(i as int).contains(e),
            decreases n - i,
        {
            let ghost pre = rows@.take(i as int);
            let ghost post = rows@.take(i + 1);
            assert(post =~= pre.push(rows@[i as int]));
            let e = rows[i].clone();
            if e.id <= 0 || e.id > last_id {
                assert(!valid_rows(rows@, last_id));
                return Err(StoreError::InvalidRows);
            }
            let mut k: usize = 0;
            while k < t.len()
                invariant
                    k <= t@.len(),
                    n == rows@.len(),
                    i < n,
                    pre == rows@.take(i as int),
                    e == rows@[i as int],
                    t@.len() == i,
                    forall|x: ClipEntry| t@.contains(x) <==> pre.contains(x),
                    forall|j: int|
                        0 <= j < k ==> (#[trigger] t@[j]).id != e.id && t@[j].content_hash@
                            != e.content_hash@,
                decreases t.len() - k,
            {
                if t[k].id == e.id || t[k].content_hash == e.content_hash {
                    proof {
                        assert(t@.contains(t@[k as int]));
                        assert(pre.contains(t@[k as int]));
                        let j = choose|j: int| 0 <= j < pre.len() && pre[j] == t@[k as int];
                        assert(rows@[j] == pre[j]);
                        assert(rows@[i as int] == e);
                        assert(!valid_rows(rows@, last_id));
                    }
                    return Err(StoreError::InvalidRows);
                }
                k = k + 1;
            }
            let pos = rank_position(&t, &e);
            proof {
                lemma_placed_well_ordered(t@, e);
                lemma_rank_pos(t@, e);
            }
            let ghost old_t = t@;
            t.insert(pos, e);
            proof {
                assert forall|x: ClipEntry| t@.contains(x) <==> post.contains(x) by {
                    if t@.contains(x) {
                        let k = choose|k: int| 0 <= k < t@.len() && t@[k] == x;
                        if x != e {
                            assert(old_t.contains(x));
                            assert(pre.contains(x));
                            let j = choose|j: int| 0 <= j < pre.len() && pre[j] == x;
                            assert(post[j] == x);
                        } else {
                            assert(post[i as int] == x);
                        }
                    }
                    if post.contains(x) {
                        let j = choose|j: int| 0 <= j < post.len() && post[j] == x;
                        if j < i {
                            assert(pre[j] == x);
                            assert(pre.contains(x));
                            assert(old_t.contains(x));
                            let k = choose|k: int| 0 <= k < old_t.len() && old_t[k] == x;
                            assert(placed(old_t, e).contains(old_t[k]));
                        }
                    }
                }
                assert forall|a: int, b: int|
                    0 <= a < post.len() && 0 <= b < post.len() && a != b implies (
                    #[trigger] post[a]).id != (#[trigger] post[b]).id && post[a].content_hash@
                        != post[b].content_hash@ by {
                    if a == i {
                        assert(old_t.contains(post[b]));
                        let k = choose|k: int| 0 <= k < old_t.len() && old_t[k] == post[b];
                        assert(k < old_t.len());
                    } else if b == i {
                        assert(pre[a] == post[a]);
                        assert(pre.contains(post[a]));
                        assert(old_t.contains(post[a]));
                        let k = choose|k: int| 0 <= k < old_t.len() && old_t[k] == post[a];
                        assert(k < old_t.len());
                    } else {
                        assert(pre[a] == post[a] && pre[b] == post[b]);
                    }
                }
            }
            i = i + 1;
        }
        assert(rows@.take(n as int) =~= rows@);
        proof {
            assert forall|k: int| 0 <= k < t@.len() implies 0 < #[trigger] t@[k].id <= last_id by {
                assert(t@.contains(t@[k]));
                let j = choose|j: int| 0 <= j < rows@.len() && rows@[j] == t@[k];
            }
        }
        Ok(Database { rows: t, last_id: last_id })
    }
}

// ---------------------------------------------------------------------
// Laws of the clip table.

/// `rank_pos` is the one place where every row before is listed before
/// `e` and the row at it is not.
pub proof fn lemma_rank_pos_unique(s: Seq<ClipEntry>, e: ClipEntry, p: int)
    requires
        0 <= p <= s.len(),
        forall|k: int| 0 <= k < p ==> shown_before(#[trigger] s[k], e),
        p < s.len() ==> !shown_before(s[p], e),
    ensures
        rank_pos(s, e) == p,
    decreases s.len(),
{
    if p > 0 {
        assert(shown_before(s[0], e));
        assert forall|k: int| 0 <= k < p - 1 implies shown_before(
            #[trigger] s.drop_first()[k],
            e,
        ) by {
            assert(s.drop_first()[k] == s[k + 1]);
        }
        if p - 1 < s.drop_first().len() {
            assert(s.drop_first()[p - 1] == s[p]);
        }
        lemma_rank_pos_unique(s.drop_first(), e, p - 1);
    }
}

/// Taking a row out of well ordered rows and putting it back in its place
/// gives the rows back.
pub proof fn lemma_place_back(s: Seq<ClipEntry>, i: int)
    requires
        well_ordered(s),
        0 <= i < s.len(),
    ensures
        placed(s.remove(i), s[i]) == s,
{
    let r = s.remove(i);
    assert forall|k: int| 0 <= k < i implies shown_before(#[trigger] r[k], s[i]) by {
        assert(r[k] == s[k]);
        assert(ordered_pair(s[k], s[i]));
    }
    if i < r.len() {
        assert(r[i] == s[i + 1]);
        assert(ordered_pair(s[i], s[i + 1]));
        lemma_shown_before_asymmetric(s[i], s[i + 1]);
    }
    lemma_rank_pos_unique(r, s[i], i);
    assert(r.insert(i, s[i]) =~= s);
}

/// In a table that keeps its rules, the row found for an id is the only
/// row with that id.
pub proof fn lemma_id_index(t: ClipTable, i: int)
    requires
        t.wf(),
        0 <= i < t.rows.len(),
    ensures
        t.has_id(t.rows[i].id),
        t.id_index(t.rows[i].id) == i,
{
    let id = t.rows[i].id;
    assert(t.has_id(id));
    let j = t.id_index(id);
    if j != i {
        if j < i {
            assert(ordered_pair(t.rows[j], t.rows[i]));
        } else {
            assert(ordered_pair(t.rows[i], t.rows[j]));
        }
    }
}

/// In a table that keeps its rules, the row found for a content hash is
/// the only row with that hash.
pub proof fn lemma_hash_index(t: ClipTable, i: int)
    requires
        t.wf(),
        0 <= i < t.rows.len(),
    ensures
        t.has_hash(t.rows[i].content_hash@),
        t.hash_index(t.rows[i].content_hash@) == i,
{
    let h = t.rows[i].content_hash@;
    assert(t.has_hash(h));
    let j = t.hash_index(h);
    if j != i {
        if j < i {
            assert(ordered_pair(t.rows[j], t.rows[i]));
        } else {
            assert(ordered_pair(t.rows[i], t.rows[j]));
        }
    }
}

/// Moving row `i` of a well-formed table to the place of `row`, a copy of
/// it with another pin state or time, keeps the table's rules; the row
/// ends up at index `rank_pos`.
pub proof fn lemma_move_row(t: ClipTable, i: int, row: ClipEntry)
    requires
        t.wf(),
        0 <= i < t.rows.len(),
        row.id == t.rows[i].id,
        row.content_hash@ == t.rows[i].content_hash@,
    ensures
        (ClipTable { rows: placed(t.rows.remove(i), row), ..t }).wf(),
        placed(t.rows.remove(i), row)[rank_pos(t.rows.remove(i), row) as int] == row,
        rank_pos(t.rows.remove(i), row) < placed(t.rows.remove(i), row).len(),
{
    let r = t.rows.remove(i);
    lemma_remove_well_ordered(t.rows, i);
    assert forall|k: int| 0 <= k < r.len() implies (#[trigger] r[k]).id != row.id
        && r[k].content_hash@ != row.content_hash@ by {
        let k0 = if k < i {
            k
        } else {
            k + 1
        };
        assert(r[k] == t.rows[k0]);
    }
    lemma_placed_well_ordered(r, row);
    lemma_rank_pos(r, row);
    let u = placed(r, row);
    assert forall|k: int| 0 <= k < u.len() implies 0 < #[trigger] u[k].id <= t.last_id by {
        if u[k] != row {
            let j = choose|j: int| 0 <= j < r.len() && r[j] == u[k];
            assert(r[j] == t.rows[if j < i {
                j
            } else {
                j + 1
            }]);
        }
    }
}

/// Every table operation keeps the table's rules: display order, unique
/// ids, unique content hashes, ids within `1..=last_id`.
pub proof fn lemma_operations_keep_rules(t: ClipTable, e: ClipEntry, id: i64, keep: usize)
    requires
        t.wf(),
    ensures
        t.after_insert(e).0.wf(),
        t.after_toggle_pin(id).0.wf(),
        t.after_delete(id).wf(),
        t.after_cleanup(keep).0.wf(),
{
    if t.has_hash(e.content_hash@) {
        let i = t.hash_index(e.content_hash@);
        lemma_move_row(t, i, ClipEntry { created_at: e.created_at, ..t.rows[i] });
    } else if t.last_id < i64::MAX {
        let row = ClipEntry { id: (t.last_id + 1) as i64, ..e };
        assert forall|k: int| 0 <= k < t.rows.len() implies (#[trigger] t.rows[k]).id != row.id
            && t.rows[k].content_hash@ != row.content_hash@ by {}
        lemma_placed_well_ordered(t.rows, row);
        let u = placed(t.rows, row);
        assert forall|k: int| 0 <= k < u.len() implies 0 < #[trigger] u[k].id <= row.id by {
            if u[k] != row {
                let j = choose|j: int| 0 <= j < t.rows.len() && t.rows[j] == u[k];
            }
        }
    }
    if t.has_id(id) {
        let i = t.id_index(id);
        lemma_move_row(t, i, ClipEntry { is_pinned: !t.rows[i].is_pinned, ..t.rows[i] });
        lemma_remove_well_ordered(t.rows, i);
        let r = t.rows.remove(i);
        assert forall|k: int| 0 <= k < r.len() implies 0 < #[trigger] r[k].id <= t.last_id by {
            assert(r[k] == t.rows[if k < i {
                k
            } else {
                k + 1
            }]);
        }
    }
    lemma_kept(t.rows, keep as nat);
    let c = kept(t.rows, keep as nat);
    assert forall|k: int| 0 <= k < c.len() implies 0 < #[trigger] c[k].id <= t.last_id by {
        let j = choose|j: int| 0 <= j < t.rows.len() && t.rows[j] == c[k];
    }
}

/// Inserting the same clip twice: the second insertion answers the id the
/// first answered and adds no row (as long as ids are left for both).
pub proof fn lemma_insert_twice_same_id(t: ClipTable, e: ClipEntry)
    requires
        t.wf(),
        t.last_id < i64::MAX - 1,
    ensures
        t.after_insert(e).0.after_insert(e).1 == t.after_insert(e).1,
        t.after_insert(e).0.after_insert(e).0.rows.len() == t.after_insert(e).0.rows.len(),
{
    let (t1, r1) = t.after_insert(e);
    lemma_operations_keep_rules(t, e, 0, 0);
    let row = if t.has_hash(e.content_hash@) {
        ClipEntry { created_at: e.created_at, ..t.rows[t.hash_index(e.content_hash@)] }
    } else {
        ClipEntry { id: (t.last_id + 1) as i64, ..e }
    };
    let base = if t.has_hash(e.content_hash@) {
        t.rows.remove(t.hash_index(e.content_hash@))
    } else {
        t.rows
    };
    lemma_rank_pos(base, row);
    let p = rank_pos(base, row) as int;
    assert(t1.rows == placed(base, row));
    assert(t1.rows[p] == row);
    lemma_hash_index(t1, p);
    assert(t1.has_hash(e.content_hash@));
    let row2 = ClipEntry { created_at: e.created_at, ..t1.rows[p] };
    lemma_rank_pos(t1.rows.remove(p), row2);
}

/// Toggling the pin of the same clip twice leaves the table as it was, and
/// the two answers are the flipped and then the first pin state.
pub proof fn lemma_toggle_pin_twice(t: ClipTable, id: i64)
    requires
        t.wf(),
        t.has_id(id),
    ensures
        t.after_toggle_pin(id).0.after_toggle_pin(id).0 == t,
        t.after_toggle_pin(id).1 == Ok::<bool, StoreError>(!t.rows[t.id_index(id)].is_pinned),
        t.after_toggle_pin(id).0.after_toggle_pin(id).1 == Ok::<bool, StoreError>(
            t.rows[t.id_index(id)].is_pinned,
        ),
{
    let i = t.id_index(id);
    let orig = t.rows[i];
    let row = ClipEntry { is_pinned: !orig.is_pinned, ..orig };
    lemma_move_row(t, i, row);
    let t1 = t.after_toggle_pin(id).0;
    let p = rank_pos(t.rows.remove(i), row) as int;
    assert(t1.rows[p] == row);
    lemma_id_index(t1, p);
    let back = ClipEntry { is_pinned: !row.is_pinned, ..row };
    assert(back == orig);
    assert(t1.rows == placed(t.rows.remove(i), row));
    lemma_rank_pos(t.rows.remove(i), row);
    assert(t1.rows.remove(p) =~= t.rows.remove(i));
    lemma_place_back(t.rows, i);
}

/// After deleting clip `id`, no clip has that id, and every other clip is
/// still there.
pub proof fn lemma_delete_removes(t: ClipTable, id: i64)
    requires
        t.wf(),
    ensures
        !t.after_delete(id).has_id(id),
        forall|e: ClipEntry| t.rows.contains(e) && e.id != id ==> t.after_delete(id).rows.contains(e),
{
    if t.has_id(id) {
        let i = t.id_index(id);
        let r = t.rows.remove(i);
        lemma_remove_well_ordered(t.rows, i);
        assert forall|k: int| 0 <= k < r.len() implies (#[trigger] r[k]).id != id by {
            assert(r[k] == t.rows[if k < i {
                k
            } else {
                k + 1
            }]);
        }
        assert forall|e: ClipEntry| t.rows.contains(e) && e.id != id implies r.contains(e) by {
            let k = choose|k: int| 0 <= k < t.rows.len() && t.rows[k] == e;
            if k < i {
                assert(r[k] == e);
            } else {
                assert(r[k - 1] == e);
            }
        }
    }
}

/// A new clip gets an id above every id in the table: ids are not reused.
pub proof fn lemma_new_id_is_fresh(t: ClipTable, e: ClipEntry)
    requires
        t.wf(),
        !t.has_hash(e.content_hash@),
        t.last_id < i64::MAX,
    ensures
        t.after_insert(e).1 == Ok::<i64, StoreError>((t.last_id + 1) as i64),
        forall|k: int| 0 <= k < t.rows.len() ==> t.rows[k].id < t.last_id + 1,
        t.after_insert(e).0.rows.len() == t.rows.len() + 1,
{
    lemma_rank_pos(t.rows, ClipEntry { id: (t.last_id + 1) as i64, ..e });
}

/// How many rows a retention pass keeps: all pinned rows, and of the
/// unpinned rows `keep` at most.
pub proof fn lemma_kept_counts(s: Seq<ClipEntry>, keep: nat)
    ensures
        kept(s, keep).len() == (s.len() - unpinned_count(s)) + if unpinned_count(s) < keep {
            unpinned_count(s)
        } else {
            keep
        },
        unpinned_count(s) <= s.len(),
        forall|j: int| 0 <= j < s.len() && s[j].is_pinned ==> kept(s, keep).contains(#[trigger] s[j]),
    decreases s.len(),
{
    if s.len() > 0 {
        let s0 = s.drop_last();
        lemma_kept_counts(s0, keep);
        let before = kept(s0, keep);
        assert forall|j: int| 0 <= j < s.len() && s[j].is_pinned implies kept(s, keep).contains(
            #[trigger] s[j],
        ) by {
            if j < s.len() - 1 {
                assert(s0[j] == s[j]);
                assert(before.contains(s0[j]));
                let k = choose|k: int| 0 <= k < before.len() && before[k] == s0[j];
                if s.last().is_pinned || unpinned_count(s0) < keep {
                    assert(kept(s, keep)[k] == s[j]);
                }
            } else {
                assert(kept(s, keep)[kept(s, keep).len() - 1] == s[j]);
            }
        }
    }
}

/// A retention pass that keeps `keep` unpinned clips deletes every
/// unpinned clip beyond the `keep` newest and no pinned clip.
pub proof fn lemma_cleanup_counts(t: ClipTable, keep: usize)
    ensures
        t.rows.len() - t.after_cleanup(keep).0.rows.len() == if unpinned_count(t.rows) <= keep {
            0
        } else {
            unpinned_count(t.rows) - keep
        },
        forall|j: int|
            0 <= j < t.rows.len() && t.rows[j].is_pinned ==> t.after_cleanup(keep).0.rows.contains(
                #[trigger] t.rows[j],
            ),
{
    lemma_kept_counts(t.rows, keep as nat);
}

/// Filtering well ordered rows keeps them well ordered, and keeps only
/// rows of `s`.
pub proof fn lemma_filter_well_ordered(s: Seq<ClipEntry>, pred: spec_fn(ClipEntry) -> bool)
    requires
        well_ordered(s),
    ensures
        well_ordered(s.filter(pred)),
        forall|j: int|
            0 <= j < s.filter(pred).len() ==> exists|i: int|
                0 <= i < s.len() && s[i] == #[trigger] s.filter(pred)[j],
    decreases s.len(),
{
    reveal(Seq::filter);
    if s.len() > 0 {
        let s0 = s.drop_last();
        assert forall|i: int, j: int| 0 <= i < j < s0.len() implies ordered_pair(
            #[trigger] s0[i],
            #[trigger] s0[j],
        ) by {
            assert(s0[i] == s[i] && s0[j] == s[j]);
        }
        lemma_filter_well_ordered(s0, pred);
        let before = s0.filter(pred);
        let t = s.filter(pred);
        if pred(s.last()) {
            assert(t == before.push(s.last()));
            assert forall|a: int, b: int| 0 <= a < b < t.len() implies ordered_pair(
                #[trigger] t[a],
                #[trigger] t[b],
            ) by {
                if b == t.len() - 1 {
                    let i = choose|i: int| 0 <= i < s0.len() && s0[i] == before[a];
                    assert(s[i] == t[a]);
                    assert(ordered_pair(s[i], s[s.len() - 1]));
                } else {
                    assert(t[a] == before[a] && t[b] == before[b]);
                }
            }
            assert forall|j: int| 0 <= j < t.len() implies exists|i: int|
                0 <= i < s.len() && s[i] == #[trigger] t[j] by {
                if j == t.len() - 1 {
                    assert(s[s.len() - 1] == t[j]);
                } else {
                    let i = choose|i: int| 0 <= i < s0.len() && s0[i] == before[j];
                    assert(s[i] == t[j]);
                }
            }
        } else {
            assert forall|j: int| 0 <= j < t.len() implies exists|i: int|
                0 <= i < s.len() && s[i] == #[trigger] t[j] by {
                let i = choose|i: int| 0 <= i < s0.len() && s0[i] == before[j];
                assert(s[i] == t[j]);
            }
        }
    }
}

/// What a search answers: at most `limit` clips, each a clip of the table
/// that the search selects (pinned, if only pinned clips are asked for),
/// listed in display order (pinned clips first, then newest first).
pub proof fn lemma_search_results(
    t: ClipTable,
    query: Seq<char>,
    limit: usize,
    offset: usize,
    pinned_only: bool,
)
    requires
        t.wf(),
    ensures
        t.search_result(query, limit, offset, pinned_only).len() <= limit,
        well_ordered(t.search_result(query, limit, offset, pinned_only)),
        forall|j: int|
            0 <= j < t.search_result(query, limit, offset, pinned_only).len() ==> {
                &&& selected(
                    #[trigger] t.search_result(query, limit, offset, pinned_only)[j],
                    query,
                    pinned_only,
                )
                &&& t.rows.contains(t.search_result(query, limit, offset, pinned_only)[j])
            },
        pinned_only ==> forall|j: int|
            0 <= j < t.search_result(query, limit, offset, pinned_only).len()
                ==> (#[trigger] t.search_result(query, limit, offset, pinned_only)[j]).is_pinned,
        forall|a: int, b: int|
            0 <= a < b < t.search_result(query, limit, offset, pinned_only).len() && (
            #[trigger] t.search_result(query, limit, offset, pinned_only)[b]).is_pinned ==> (
            #[trigger] t.search_result(query, limit, offset, pinned_only)[a]).is_pinned,
{
    let pred = |e: ClipEntry| selected(e, query, pinned_only);
    let f = t.rows.filter(pred);
    broadcast use vstd::seq_lib::group_filter_ensures;

    lemma_filter_well_ordered(t.rows, pred);
    let r = t.search_result(query, limit, offset, pinned_only);
    let start = if page_start(offset) <= f.len() {
        page_start(offset) as int
    } else {
        f.len() as int
    };
    assert forall|j: int| 0 <= j < r.len() implies r[j] == f[start + j] by {}
    assert forall|a: int, b: int| 0 <= a < b < r.len() implies ordered_pair(
        #[trigger] r[a],
        #[trigger] r[b],
    ) by {
        assert(r[a] == f[start + a] && r[b] == f[start + b]);
    }
    assert forall|a: int, b: int| 0 <= a < b < r.len() && (#[trigger] r[b]).is_pinned implies (
    #[trigger] r[a]).is_pinned by {
        assert(ordered_pair(r[a], r[b]));
    }
    assert forall|j: int| 0 <= j < r.len() implies selected(#[trigger] r[j], query, pinned_only)
        && t.rows.contains(r[j]) by {
        assert(r[j] == f[start + j]);
        assert(pred(f[start + j]));
        let i = choose|i: int| 0 <= i < t.rows.len() && t.rows[i] == f[start + j];
    }
}

/// A retention pass leaves at most `keep` unpinned rows.
pub proof fn lemma_kept_unpinned(s: Seq<ClipEntry>, keep: nat)
    ensures
        unpinned_count(kept(s, keep)) == if unpinned_count(s) < keep {
            unpinned_count(s)
        } else {
            keep
        },
    decreases s.len(),
{
    if s.len() > 0 {
        let s0 = s.drop_last();
        lemma_kept_unpinned(s0, keep);
        let before = kept(s0, keep);
        if s.last().is_pinned || unpinned_count(s0) < keep {
            assert(kept(s, keep).drop_last() =~= before);
        }
    }
}

/// A second retention pass with the same `keep` keeps every row.
pub proof fn lemma_kept_idempotent(s: Seq<ClipEntry>, keep: nat)
    ensures
        kept(kept(s, keep), keep) == kept(s, keep),
    decreases s.len(),
{
    if s.len() > 0 {
        let s0 = s.drop_last();
        lemma_kept_idempotent(s0, keep);
        lemma_kept_unpinned(s0, keep);
        let before = kept(s0, keep);
        if s.last().is_pinned || unpinned_count(s0) < keep {
            let t = before.push(s.last());
            assert(t.drop_last() =~= before);
            assert(t.last() == s.last());
        }
    }
}

/// Retention is idempotent: right after a retention pass, another one with
/// the same `keep` deletes nothing and leaves the table as it is.
pub proof fn lemma_cleanup_twice(t: ClipTable, keep: usize)
    ensures
        t.after_cleanup(keep).0.after_cleanup(keep).0 == t.after_cleanup(keep).0,
        t.after_cleanup(keep).0.after_cleanup(keep).1 == 0,
{
    lemma_kept_idempotent(t.rows, keep as nat);
}

/// Search keeps both of its filters: every clip it answers is a clip of
/// the table whose content matches `%query%` (for a non-empty query) and
/// that is pinned (when only pinned clips are asked for), whatever the
/// other filter; and a search from offset 0 with room for the whole table
/// answers every such clip.
pub proof fn lemma_search_filters(
    t: ClipTable,
    query: Seq<char>,
    limit: usize,
    offset: usize,
    pinned_only: bool,
)
    requires
        t.wf(),
    ensures
        forall|j: int|
            0 <= j < t.search_result(query, limit, offset, pinned_only).len() ==> {
                let e = #[trigger] t.search_result(query, limit, offset, pinned_only)[j];
                &&& t.rows.contains(e)
                &&& pinned_only ==> e.is_pinned
                &&& query.len() > 0 ==> like_match(anywhere(query), e.content@)
            },
        offset == 0 && limit >= t.rows.len() ==> forall|e: ClipEntry|
            t.rows.contains(e) && (pinned_only ==> e.is_pinned) && (query.len() > 0
                ==> like_match(anywhere(query), e.content@)) ==> #[trigger] t.search_result(
                query,
                limit,
                offset,
                pinned_only,
            ).contains(e),
{
    broadcast use vstd::seq_lib::group_filter_ensures;

    lemma_search_results(t, query, limit, offset, pinned_only);
    let pred = |e: ClipEntry| selected(e, query, pinned_only);
    let f = t.rows.filter(pred);
    if offset == 0 && limit >= t.rows.len() {
        assert(f.skip(0) =~= f);
        assert(t.search_result(query, limit, offset, pinned_only) == f);
        assert forall|e: ClipEntry|
            t.rows.contains(e) && (pinned_only ==> e.is_pinned) && (query.len() > 0 ==> like_match(
                anywhere(query),
                e.content@,
            )) implies #[trigger] t.search_result(query, limit, offset, pinned_only).contains(e) by {
            let k = choose|k: int| 0 <= k < t.rows.len() && t.rows[k] == e;
            assert(pred(t.rows[k]));
        }
    }
}

/// Inserting a clip whose content hash is already stored refreshes that
/// row's time and nothing else: the answer is the row's id, the row keeps
/// its id, content, hash, type, source, pin state and tags and takes the
/// new `created_at`, the other rows stay, and no row is added.
pub proof fn lemma_insert_existing_refreshes_time(t: ClipTable, e: ClipEntry, i: int)
    requires
        t.wf(),
        0 <= i < t.rows.len(),
        t.rows[i].content_hash@ == e.content_hash@,
        t.last_id < i64::MAX,
    ensures
        t.after_insert(e).1 == Ok::<i64, StoreError>(t.rows[i].id),
        t.after_insert(e).0.rows.len() == t.rows.len(),
        exists|j: int|
            0 <= j < t.after_insert(e).0.rows.len() && {
                let n = #[trigger] t.after_insert(e).0.rows[j];
                let o = t.rows[i];
                &&& n.id == o.id
                &&& n.content == o.content
                &&& n.content_hash == o.content_hash
                &&& n.content_type == o.content_type
                &&& n.source_app == o.source_app
                &&& n.is_pinned == o.is_pinned
                &&& n.tags == o.tags
                &&& n.created_at == e.created_at
            },
        forall|k: int|
            0 <= k < t.rows.len() && k != i ==> t.after_insert(e).0.rows.contains(
                #[trigger] t.rows[k],
            ),
{
    lemma_hash_index(t, i);
    let row = ClipEntry { created_at: e.created_at, ..t.rows[i] };
    lemma_move_row(t, i, row);
    let r = t.rows.remove(i);
    lemma_remove_well_ordered(t.rows, i);
    assert forall|k: int| 0 <= k < r.len() implies (#[trigger] r[k]).id != row.id
        && r[k].content_hash@ != row.content_hash@ by {
        assert(r[k] == t.rows[if k < i {
            k
        } else {
            k + 1
        }]);
    }
    lemma_placed_well_ordered(r, row);
    let p = rank_pos(r, row) as int;
    let n = t.after_insert(e).0.rows;
    assert(n[p] == row);
    assert forall|k: int| 0 <= k < t.rows.len() && k != i implies n.contains(
        #[trigger] t.rows[k],
    ) by {
        let k0 = if k < i {
            k
        } else {
            k - 1
        };
        assert(r[k0] == t.rows[k]);
    }
}

/// Inserting a clip whose content hash is new adds exactly that clip under
/// the next id: the answer is that id, the new row holds the clip's
/// content, hash, type, source, pin state, tags and time, and every other
/// row stays.
pub proof fn lemma_insert_new_adds_clip(t: ClipTable, e: ClipEntry)
    requires
        t.wf(),
        forall|k: int| 0 <= k < t.rows.len() ==> (#[trigger] t.rows[k]).content_hash@ != e.content_hash@,
        t.last_id < i64::MAX,
    ensures
        t.after_insert(e).1 == Ok::<i64, StoreError>((t.last_id + 1) as i64),
        t.after_insert(e).0.rows.len() == t.rows.len() + 1,
        exists|j: int|
            0 <= j < t.after_insert(e).0.rows.len() && {
                let n = #[trigger] t.after_insert(e).0.rows[j];
                &&& n.id == t.last_id + 1
                &&& n.content == e.content
                &&& n.content_hash == e.content_hash
                &&& n.content_type == e.content_type
                &&& n.source_app == e.source_app
                &&& n.is_pinned == e.is_pinned
                &&& n.tags == e.tags
                &&& n.created_at == e.created_at
            },
        forall|k: int| 0 <= k < t.rows.len() ==> t.after_insert(e).0.rows.contains(#[trigger] t.rows[k]),
{
    assert(!t.has_hash(e.content_hash@));
    let row = ClipEntry { id: (t.last_id + 1) as i64, ..e };
    lemma_placed_well_ordered(t.rows, row);
    lemma_rank_pos(t.rows, row);
    let n = t.after_insert(e).0.rows;
    assert(n[rank_pos(t.rows, row) as int] == row);
}

} // verus!
