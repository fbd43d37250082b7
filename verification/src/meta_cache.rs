//! The locations of a table's tablets, as far as they are known: a sorted
//! list of entries that do not overlap, each a tablet or a stretch that no
//! tablet covers. It answers which entry contains a key, takes in what the
//! master reports, and forgets tablets that turned out to be gone.

use crate::endian::{bytes_le, bytes_lt, lemma_lex_le_transitive, lex_le, lex_lt, same_bytes};
use crate::error::Error;
use crate::tablet::{Entry, EntryView, Tablet, TabletId, TabletView};
use vstd::prelude::*;
use vstd::slice::slice_to_vec;

verus! {

/// An entry is proper where it is not empty: it has no upper bound, or its
/// lower bound comes before its upper bound.
pub open spec fn proper(entry: EntryView) -> bool {
    entry.upper_bound().len() == 0 || lex_lt(entry.lower_bound(), entry.upper_bound())
}

/// One entry precedes another where it ends no later than the other begins.
pub open spec fn precedes(a: EntryView, b: EntryView) -> bool {
    a.upper_bound().len() > 0 && lex_le(a.upper_bound(), b.lower_bound())
}

/// Entries partition what they cover where each is proper and each precedes
/// all that come after it: they are sorted and do not overlap.
pub open spec fn partitioned(entries: Seq<EntryView>) -> bool {
    &&& forall|i: int| 0 <= i < entries.len() ==> proper(#[trigger] entries[i])
    &&& forall|i: int, j: int|
        0 <= i < j < entries.len() ==> precedes(#[trigger] entries[i], #[trigger] entries[j])
}

/// The entries as contracts see them.
pub open spec fn entry_views(entries: Seq<Entry>) -> Seq<EntryView> {
    Seq::new(entries.len(), |i: int| entries[i]@)
}

/// The stretch between two keys that no tablet covers, if there is any.
pub open spec fn gap(from: Seq<u8>, to: Seq<u8>) -> Seq<EntryView> {
    if lex_lt(from, to) {
        seq![EntryView::NonCoveredRange { lower_bound: from, upper_bound: to }]
    } else {
        Seq::empty()
    }
}

/// The entries that a report of tablets stands for, from tablet `i` on:
/// each tablet, the stretch before it that no tablet covers, and, where the
/// report is complete, the stretch after the last tablet.
pub open spec fn window_from(
    cursor: Seq<u8>,
    tablets: Seq<TabletView>,
    i: int,
    complete: bool,
) -> Seq<EntryView>
    decreases tablets.len() - i,
{
    if i < 0 || i >= tablets.len() {
        if complete {
            seq![EntryView::NonCoveredRange { lower_bound: cursor, upper_bound: Seq::empty() }]
        } else {
            Seq::empty()
        }
    } else {
        let tablet = tablets[i];
        gap(cursor, tablet.lower_bound) + seq![EntryView::Tablet(tablet)] + if tablet.upper_bound.len()
            == 0 {
            Seq::empty()
        } else {
            window_from(tablet.upper_bound, tablets, i + 1, complete)
        }
    }
}

/// Whether a report is sound from tablet `i` on: each tablet is proper and
/// begins no earlier than the one before it ended, and only the last may
/// lack an upper bound.
pub open spec fn sound_from(cursor: Seq<u8>, tablets: Seq<TabletView>, i: int) -> bool
    decreases tablets.len() - i,
{
    if i < 0 || i >= tablets.len() {
        true
    } else {
        let tablet = tablets[i];
        &&& lex_le(cursor, tablet.lower_bound)
        &&& proper(EntryView::Tablet(tablet))
        &&& if tablet.upper_bound.len() == 0 {
            i + 1 == tablets.len()
        } else {
            sound_from(tablet.upper_bound, tablets, i + 1)
        }
    }
}

/// Where the window of a report begins: at the key asked for, or at the
/// lower bound of the first tablet where that comes first.
pub open spec fn window_start(key: Seq<u8>, tablets: Seq<TabletView>) -> Seq<u8> {
    if tablets.len() > 0 && lex_lt(tablets[0].lower_bound, key) {
        tablets[0].lower_bound
    } else {
        key
    }
}

/// Whether a report answers the key asked for: its first tablet, if any,
/// ends after the key, and the report is sound.
pub open spec fn sound(key: Seq<u8>, tablets: Seq<TabletView>) -> bool {
    &&& tablets.len() > 0 ==> tablets[0].upper_bound.len() == 0 || lex_lt(
        key,
        tablets[0].upper_bound,
    )
    &&& sound_from(window_start(key, tablets), tablets, 0)
}

/// The entries that a report of tablets for a key stands for.
pub open spec fn window(key: Seq<u8>, tablets: Seq<TabletView>, complete: bool) -> Seq<EntryView> {
    window_from(window_start(key, tablets), tablets, 0, complete)
}

/// The tablets as contracts see them.
pub open spec fn tablet_views(tablets: Seq<Tablet>) -> Seq<TabletView> {
    Seq::new(tablets.len(), |i: int| tablets[i]@)
}

/// An entry that ends no later than `lo` begins.
pub open spec fn left_of(entry: EntryView, lo: Seq<u8>) -> bool {
    entry.upper_bound().len() > 0 && lex_le(entry.upper_bound(), lo)
}

/// An entry that begins no earlier than the bounded stretch up to `hi` ends.
pub open spec fn right_of(entry: EntryView, hi: Seq<u8>) -> bool {
    hi.len() > 0 && lex_le(hi, entry.lower_bound())
}

/// What is known after a window is merged in: the entries that end before
/// the window, the window, and the entries that begin after it. Entries that
/// overlap the window give way to it.
pub open spec fn merged(known: Seq<EntryView>, fresh: Seq<EntryView>, a: int, b: int) -> Seq<
    EntryView,
> {
    known.take(a) + fresh + known.skip(b)
}

/// Whether `a` and `b` mark off the entries that overlap the window: the
/// first `a` entries end before it, those from `b` on begin after it, and
/// those between do neither.
pub open spec fn marks(known: Seq<EntryView>, fresh: Seq<EntryView>, a: int, b: int) -> bool {
    let lo = fresh[0].lower_bound();
    let hi = fresh.last().upper_bound();
    &&& 0 <= a <= b <= known.len()
    &&& forall|i: int| 0 <= i < a ==> left_of(#[trigger] known[i], lo)
    &&& forall|i: int| b <= i < known.len() ==> right_of(#[trigger] known[i], hi)
    &&& forall|i: int|
        a <= i < b ==> !left_of(#[trigger] known[i], lo) && !right_of(known[i], hi)
}

/// One more entry in front keeps a partition, where it is proper and ends
/// no later than any of the others begins.
pub proof fn lemma_partitioned_front(entry: EntryView, rest: Seq<EntryView>)
    requires
        proper(entry),
        partitioned(rest),
        rest.len() > 0 ==> precedes(entry, rest[0]),
    ensures
        partitioned(seq![entry] + rest),
{
    let all = seq![entry] + rest;
    assert forall|i: int| 0 <= i < all.len() implies proper(#[trigger] all[i]) by {
        if i > 0 {
            assert(all[i] == rest[i - 1]);
        }
    }
    assert forall|i: int, j: int| 0 <= i < j < all.len() implies precedes(
        #[trigger] all[i],
        #[trigger] all[j],
    ) by {
        assert(all[j] == rest[j - 1]);
        if i > 0 {
            assert(all[i] == rest[i - 1]);
        } else {
            if j > 1 {
                assert(precedes(rest[0], rest[j - 1]));
                assert(proper(rest[0]));
                lemma_lex_le_transitive(
                    entry.upper_bound(),
                    rest[0].lower_bound(),
                    rest[0].upper_bound(),
                );
                lemma_lex_le_transitive(
                    entry.upper_bound(),
                    rest[0].upper_bound(),
                    rest[j - 1].lower_bound(),
                );
            }
        }
    }
}

/// The window of a sound report is a partition that begins no earlier than
/// the cursor.
pub proof fn lemma_window_partitioned(
    cursor: Seq<u8>,
    tablets: Seq<TabletView>,
    i: int,
    complete: bool,
)
    requires
        0 <= i <= tablets.len(),
        sound_from(cursor, tablets, i),
    ensures
        partitioned(window_from(cursor, tablets, i, complete)),
        window_from(cursor, tablets, i, complete).len() > 0 ==> lex_le(
            cursor,
            window_from(cursor, tablets, i, complete)[0].lower_bound(),
        ),
    decreases tablets.len() - i,
{
    let w = window_from(cursor, tablets, i, complete);
    if i < tablets.len() {
        let tablet = tablets[i];
        let rest = if tablet.upper_bound.len() == 0 {
            Seq::<EntryView>::empty()
        } else {
            window_from(tablet.upper_bound, tablets, i + 1, complete)
        };
        if tablet.upper_bound.len() > 0 {
            lemma_window_partitioned(tablet.upper_bound, tablets, i + 1, complete);
        }
        let from_tablet = seq![EntryView::Tablet(tablet)] + rest;
        lemma_partitioned_front(EntryView::Tablet(tablet), rest);
        if lex_lt(cursor, tablet.lower_bound) {
            let hole = EntryView::NonCoveredRange {
                lower_bound: cursor,
                upper_bound: tablet.lower_bound,
            };
            assert(from_tablet[0] == EntryView::Tablet(tablet));
            lemma_partitioned_front(hole, from_tablet);
            assert(w =~= seq![hole] + from_tablet);
        } else {
            assert(w =~= from_tablet);
        }
    }
}

/// Whether entry `k`, if no tablet covers it, touches tablets: it ends where
/// the next entry, a tablet, begins, or has no end and is the last; and it
/// begins where the entry before it, a tablet, ends, or is the first.
pub open spec fn touches_tablets(entries: Seq<EntryView>, k: int) -> bool {
    entries[k] is NonCoveredRange ==> {
        &&& k + 1 < entries.len() ==> entries[k + 1] is Tablet && entries[k + 1].lower_bound()
            == entries[k].upper_bound()
        &&& k + 1 == entries.len() ==> entries[k].upper_bound().len() == 0
        &&& k > 0 ==> entries[k - 1] is Tablet && entries[k - 1].upper_bound()
            == entries[k].lower_bound()
    }
}

/// In the window of a sound report every stretch that no tablet covers lies
/// between tablets: it is bounded by a neighbouring tablet on either side,
/// but for the first, which begins at the cursor, and the last, which may
/// have no end.
pub proof fn lemma_window_gaps(cursor: Seq<u8>, tablets: Seq<TabletView>, i: int, complete: bool)
    requires
        0 <= i <= tablets.len(),
        sound_from(cursor, tablets, i),
    ensures
        forall|k: int|
            0 <= k < window_from(cursor, tablets, i, complete).len() ==> touches_tablets(
                window_from(cursor, tablets, i, complete),
                k,
            ),
        window_from(cursor, tablets, i, complete).len() > 0 && window_from(
            cursor,
            tablets,
            i,
            complete,
        )[0] is NonCoveredRange ==> window_from(cursor, tablets, i, complete)[0].lower_bound()
            == cursor,
    decreases tablets.len() - i,
{
    let w = window_from(cursor, tablets, i, complete);
    if i < tablets.len() {
        let tablet = tablets[i];
        let hole = gap(cursor, tablet.lower_bound);
        let rest = if tablet.upper_bound.len() == 0 {
            Seq::<EntryView>::empty()
        } else {
            window_from(tablet.upper_bound, tablets, i + 1, complete)
        };
        if tablet.upper_bound.len() > 0 {
            lemma_window_gaps(tablet.upper_bound, tablets, i + 1, complete);
        }
        let g = hole.len() as int;
        assert(w =~= hole + seq![EntryView::Tablet(tablet)] + rest);
        assert(w[g] == EntryView::Tablet(tablet));
        assert forall|k: int| 0 <= k < w.len() implies touches_tablets(w, k) by {
            if k < g {
                assert(w[k] == hole[k]);
            } else if k > g {
                let m = k - g - 1;
                assert(w[k] == rest[m]);
                assert(touches_tablets(rest, m));
                if m + 1 < rest.len() {
                    assert(w[k + 1] == rest[m + 1]);
                }
                if m > 0 {
                    assert(w[k - 1] == rest[m - 1]);
                }
            }
        }
    }
}

/// The window of a sound report has no holes: it begins at the cursor, each
/// entry ends where the next begins, and only the last may lack an upper
/// bound.
pub proof fn lemma_window_contiguous(
    cursor: Seq<u8>,
    tablets: Seq<TabletView>,
    i: int,
    complete: bool,
)
    requires
        0 <= i <= tablets.len(),
        sound_from(cursor, tablets, i),
    ensures
        forall|k: int|
            0 <= k < window_from(cursor, tablets, i, complete).len() - 1 ==> (#[trigger] window_from(
                cursor,
                tablets,
                i,
                complete,
            )[k]).upper_bound() == window_from(cursor, tablets, i, complete)[k + 1].lower_bound()
                && window_from(cursor, tablets, i, complete)[k].upper_bound().len() > 0,
        window_from(cursor, tablets, i, complete).len() > 0 ==> window_from(
            cursor,
            tablets,
            i,
            complete,
        )[0].lower_bound() == cursor,
    decreases tablets.len() - i,
{
    let w = window_from(cursor, tablets, i, complete);
    if i < tablets.len() {
        let tablet = tablets[i];
        let hole = gap(cursor, tablet.lower_bound);
        let rest = if tablet.upper_bound.len() == 0 {
            Seq::<EntryView>::empty()
        } else {
            window_from(tablet.upper_bound, tablets, i + 1, complete)
        };
        if tablet.upper_bound.len() > 0 {
            lemma_window_contiguous(tablet.upper_bound, tablets, i + 1, complete);
        }
        let g = hole.len() as int;
        assert(w =~= hole + seq![EntryView::Tablet(tablet)] + rest);
        assert(w[g] == EntryView::Tablet(tablet));
        assert forall|k: int| 0 <= k < w.len() - 1 implies (#[trigger] w[k]).upper_bound() == w[k
            + 1].lower_bound() && w[k].upper_bound().len() > 0 by {
            if k < g {
                assert(w[k] == hole[k]);
            } else if k == g {
                assert(w[k + 1] == rest[0]);
            } else {
                let m = k - g - 1;
                assert(w[k] == rest[m]);
                assert(w[k + 1] == rest[m + 1]);
            }
        }
    }
}

/// Merging a window into a partition gives a partition.
pub proof fn lemma_merged_partitioned(known: Seq<EntryView>, fresh: Seq<EntryView>, a: int, b: int)
    requires
        partitioned(known),
        partitioned(fresh),
        fresh.len() > 0,
        marks(known, fresh, a, b),
    ensures
        partitioned(merged(known, fresh, a, b)),
{
    let all = merged(known, fresh, a, b);
    let lo = fresh[0].lower_bound();
    let hi = fresh.last().upper_bound();
    let n = fresh.len() as int;
    assert forall|i: int| 0 <= i < all.len() implies proper(#[trigger] all[i]) by {
        if i < a {
            assert(all[i] == known[i]);
        } else if i < a + n {
            assert(all[i] == fresh[i - a]);
        } else {
            assert(all[i] == known[i - a - n + b]);
        }
    }
    assert forall|i: int, j: int| 0 <= i < j < all.len() implies precedes(
        #[trigger] all[i],
        #[trigger] all[j],
    ) by {
        if j < a {
            assert(all[i] == known[i] && all[j] == known[j]);
        } else if j < a + n {
            let y = fresh[j - a];
            assert(all[j] == y);
            lemma_fresh_bounds(fresh, j - a);
            if i < a {
                assert(all[i] == known[i]);
                lemma_lex_le_transitive(known[i].upper_bound(), lo, y.lower_bound());
            } else {
                assert(all[i] == fresh[i - a]);
            }
        } else {
            let y = known[j - a - n + b];
            assert(all[j] == y);
            if i < a {
                assert(all[i] == known[i]);
            } else if i < a + n {
                let x = fresh[i - a];
                assert(all[i] == x);
                lemma_fresh_bounds(fresh, i - a);
                lemma_lex_le_transitive(x.upper_bound(), hi, y.lower_bound());
            } else {
                assert(all[i] == known[i - a - n + b]);
            }
        }
    }
}

/// Every entry of a partition begins no earlier than the first, and ends no
/// later than the last where that one ends at all.
pub proof fn lemma_fresh_bounds(fresh: Seq<EntryView>, k: int)
    requires
        partitioned(fresh),
        0 <= k < fresh.len(),
    ensures
        lex_le(fresh[0].lower_bound(), fresh[k].lower_bound()),
        fresh.last().upper_bound().len() > 0 ==> fresh[k].upper_bound().len() > 0 && lex_le(
            fresh[k].upper_bound(),
            fresh.last().upper_bound(),
        ),
{
    let first = fresh[0];
    let last = fresh.last();
    assert(proper(first));
    assert(proper(last));
    if k > 0 {
        assert(precedes(first, fresh[k]));
        lemma_lex_le_transitive(first.lower_bound(), first.upper_bound(), fresh[k].lower_bound());
    }
    if k < fresh.len() - 1 {
        assert(precedes(fresh[k], last));
        if last.upper_bound().len() > 0 {
            lemma_lex_le_transitive(
                fresh[k].upper_bound(),
                last.lower_bound(),
                last.upper_bound(),
            );
        }
    }
}

impl Entry {
    /// Where the entry begins; empty for the least key there is.
    pub fn lower_bound(&self) -> (bound: &[u8])
        ensures
            bound@ == self@.lower_bound(),
    {
        match self {
            Entry::Tablet(tablet) => tablet.lower_bound.as_slice(),
            Entry::NonCoveredRange { lower_bound, .. } => lower_bound.as_slice(),
        }
    }

    /// Where the entry ends; empty where it has no end.
    pub fn upper_bound(&self) -> (bound: &[u8])
        ensures
            bound@ == self@.upper_bound(),
    {
        match self {
            Entry::Tablet(tablet) => tablet.upper_bound.as_slice(),
            Entry::NonCoveredRange { upper_bound, .. } => upper_bound.as_slice(),
        }
    }

    /// Whether the entry contains the key.
    pub fn contains(&self, key: &[u8]) -> (inside: bool)
        ensures
            inside == self@.contains(key@),
    {
        let upper = self.upper_bound();
        !bytes_lt(key, self.lower_bound()) && (upper.len() == 0 || bytes_lt(key, upper))
    }

    /// A second entry equal to this one.
    pub fn duplicate(&self) -> (copy: Entry)
        ensures
            copy@ == self@,
    {
        match self {
            Entry::Tablet(tablet) => Entry::Tablet(tablet.duplicate()),
            Entry::NonCoveredRange { lower_bound, upper_bound } => Entry::NonCoveredRange {
                lower_bound: slice_to_vec(lower_bound.as_slice()),
                upper_bound: slice_to_vec(upper_bound.as_slice()),
            },
        }
    }
}

impl Clone for Entry {
    fn clone(&self) -> (copy: Entry)
        ensures
            copy@ == self@,
    {
        self.duplicate()
    }
}

/// What is known of where the tablets of one table are.
pub struct TableLocations {
    entries: Vec<Entry>,
}

impl View for TableLocations {
    type V = Seq<EntryView>;

    closed spec fn view(&self) -> Seq<EntryView> {
        entry_views(self.entries@)
    }
}

/// The error for a report of tablets that is not sound.
fn unsound() -> (error: Error)
    ensures
        error matches Error::Serialization(text) && text@ == "the tablet locations are out of order"@,
{
    Error::Serialization("the tablet locations are out of order".to_owned())
}

/// The entries that a sound report stands for; nothing where the report is
/// not sound.
fn window_of(key: &[u8], tablets: &Vec<Tablet>, complete: bool) -> (fresh: Option<Vec<Entry>>)
    ensures
        sound(key@, tablet_views(tablets@)) <==> fresh is Some,
        fresh matches Some(entries) ==> entry_views(entries@) == window(
            key@,
            tablet_views(tablets@),
            complete,
        ),
{
    let ghost views = tablet_views(tablets@);
    let mut cursor: Vec<u8> = slice_to_vec(key);
    if tablets.len() > 0 {
        let first = &tablets[0];
        assert(views[0] == first@);
        if !(first.upper_bound.len() == 0 || bytes_lt(key, first.upper_bound.as_slice())) {
            return None;
        }
        if bytes_lt(first.lower_bound.as_slice(), key) {
            cursor = slice_to_vec(first.lower_bound.as_slice());
        }
    }
    let ghost start = cursor@;
    let mut fresh: Vec<Entry> = Vec::new();
    let mut i: usize = 0;
    let mut open_ended = false;
    proof {
        assert(entry_views(fresh@) + window_from(cursor@, views, 0, complete) =~= window_from(
            start,
            views,
            0,
            complete,
        ));
    }
    while i < tablets.len() && !open_ended
        invariant
            i <= tablets@.len(),
            views == tablet_views(tablets@),
            start == window_start(key@, views),
            views.len() > 0 ==> views[0].upper_bound.len() == 0 || lex_lt(
                key@,
                views[0].upper_bound,
            ),
            open_ended ==> i == tablets@.len(),
            sound_from(start, views, 0) <==> (if open_ended {
                true
            } else {
                sound_from(cursor@, views, i as int)
            }),
            entry_views(fresh@) + (if open_ended {
                Seq::<EntryView>::empty()
            } else {
                window_from(cursor@, views, i as int, complete)
            }) == window_from(start, views, 0, complete),
        decreases tablets@.len() - i,
    {
        let tablet = &tablets[i];
        assert(views[i as int] == tablet@);
        let lower = tablet.lower_bound.as_slice();
        let upper = tablet.upper_bound.as_slice();
        if !bytes_le(cursor.as_slice(), lower) {
            return None;
        }
        if !(upper.len() == 0 || bytes_lt(lower, upper)) {
            return None;
        }
        if upper.len() == 0 && i + 1 != tablets.len() {
            return None;
        }
        let ghost before = entry_views(fresh@);
        let ghost old_cursor = cursor@;
        if bytes_lt(cursor.as_slice(), lower) {
            fresh.push(
                Entry::NonCoveredRange { lower_bound: cursor, upper_bound: slice_to_vec(lower) },
            );
        }
        fresh.push(Entry::Tablet(tablet.duplicate()));
        cursor = slice_to_vec(upper);
        if upper.len() == 0 {
            open_ended = true;
        }
        proof {
            let rest = if tablet@.upper_bound.len() == 0 {
                Seq::<EntryView>::empty()
            } else {
                window_from(tablet@.upper_bound, views, i + 1, complete)
            };
            assert(entry_views(fresh@) =~= before + gap(old_cursor, tablet@.lower_bound)
                + seq![EntryView::Tablet(tablet@)]);
            assert(entry_views(fresh@) + rest =~= before + (gap(old_cursor, tablet@.lower_bound)
                + seq![EntryView::Tablet(tablet@)] + rest));
        }
        i = i + 1;
    }
    if !open_ended && complete {
        let ghost before = entry_views(fresh@);
        fresh.push(Entry::NonCoveredRange { lower_bound: cursor, upper_bound: Vec::new() });
        proof {
            assert(entry_views(fresh@) =~= before + window_from(
                cursor@,
                views,
                i as int,
                complete,
            ));
        }
    } else {
        proof {
            assert(entry_views(fresh@) + Seq::<EntryView>::empty() =~= entry_views(fresh@));
        }
    }
    Some(fresh)
}

impl TableLocations {
    #[verifier::type_invariant]
    closed spec fn inv(&self) -> bool {
        partitioned(entry_views(self.entries@))
    }

    /// Nothing known yet.
    pub fn new() -> (locations: TableLocations)
        ensures
            locations@ == Seq::<EntryView>::empty(),
    {
        let locations = TableLocations { entries: Vec::new() };
        proof {
            assert(locations@ =~= Seq::<EntryView>::empty());
        }
        locations
    }

    /// The number of entries known.
    pub fn len(&self) -> (n: usize)
        ensures
            n == self@.len(),
            partitioned(self@),
    {
        proof {
            use_type_invariant(self);
        }
        self.entries.len()
    }

    /// The known entry that contains the key, if there is one. The entries
    /// known are sorted and do not overlap.
    pub fn entry(&self, key: &[u8]) -> (found: Option<Entry>)
        ensures
            partitioned(self@),
            match found {
                Some(entry) => self@.contains(entry@) && entry@.contains(key@),
                None => forall|i: int| 0 <= i < self@.len() ==> !(#[trigger] self@[i]).contains(key@),
            },
    {
        proof {
            use_type_invariant(self);
        }
        let mut i: usize = 0;
        while i < self.entries.len()
            invariant
                i <= self.entries@.len(),
                partitioned(self@),
                forall|j: int| 0 <= j < i ==> !(#[trigger] self@[j]).contains(key@),
            decreases self.entries@.len() - i,
        {
            if self.entries[i].contains(key) {
                assert(self@[i as int] == self.entries@[i as int]@);
                return Some(self.entries[i].duplicate());
            }
            i = i + 1;
        }
        None
    }

    /// Takes in what the master reports for a key: the tablets from that key
    /// on, in order, all there are if the report is complete. The report
    /// stands for a window of entries: its tablets and the stretches between
    /// them that no tablet covers. Known entries that overlap the window
    /// give way to it; the others stay. A report whose tablets are out of
    /// order or overlap, or whose first tablet ends before the key, is a
    /// serialization error and changes nothing. How many known entries ended
    /// before the window, and from which one on they began after it, is
    /// given back.
    pub fn merge(&mut self, key: &[u8], tablets: Vec<Tablet>, complete: bool) -> (done: Result<
        (usize, usize),
        Error,
    >)
        ensures
            partitioned(old(self)@),
            partitioned(final(self)@),
            sound(key@, tablet_views(tablets@)) <==> done is Ok,
            done matches Err(error) ==> error is Serialization && final(self)@ == old(self)@,
            done matches Ok((a, b)) ==> {
                let fresh = window(key@, tablet_views(tablets@), complete);
                if fresh.len() == 0 {
                    final(self)@ == old(self)@
                } else {
                    marks(old(self)@, fresh, a as int, b as int) && final(self)@ == merged(
                        old(self)@,
                        fresh,
                        a as int,
                        b as int,
                    )
                }
            },
    {
        proof {
            use_type_invariant(&*self);
        }
        let fresh = match window_of(key, &tablets, complete) {
            Some(fresh) => fresh,
            None => {
                return Err(unsound());
            },
        };
        if fresh.len() == 0 {
            return Ok((0, 0));
        }
        let ghost known = self@;
        let ghost fresh_views = entry_views(fresh@);
        proof {
            let views = tablet_views(tablets@);
            lemma_window_partitioned(window_start(key@, views), views, 0, complete);
            assert(fresh_views[0] == fresh@[0]@);
            assert(fresh_views.last() == fresh@[fresh@.len() - 1]@);
        }
        let lo = slice_to_vec(fresh[0].lower_bound());
        let hi = slice_to_vec(fresh[fresh.len() - 1].upper_bound());
        let n = self.entries.len();
        let mut merged_entries: Vec<Entry> = Vec::new();
        let mut a: usize = 0;
        while a < n && left_of_window(&self.entries[a], lo.as_slice())
            invariant
                a <= n,
                n == self.entries@.len(),
                known == entry_views(self.entries@),
                forall|i: int| 0 <= i < a ==> left_of(#[trigger] known[i], lo@),
                entry_views(merged_entries@) == known.take(a as int),
            decreases n - a,
        {
            let ghost before = entry_views(merged_entries@);
            merged_entries.push(self.entries[a].duplicate());
            proof {
                assert(known[a as int] == self.entries@[a as int]@);
                assert(entry_views(merged_entries@) =~= before.push(known[a as int]));
                assert(known.take(a + 1) =~= known.take(a as int).push(known[a as int]));
            }
            a = a + 1;
        }
        proof {
            if a < n {
                assert(known[a as int] == self.entries@[a as int]@);
            }
        }
        let mut b: usize = a;
        while b < n && !right_of_window(&self.entries[b], hi.as_slice())
            invariant
                a <= b <= n,
                n == self.entries@.len(),
                known == entry_views(self.entries@),
                partitioned(known),
                a < n ==> !left_of(known[a as int], lo@),
                forall|i: int| a <= i < b ==> !right_of(#[trigger] known[i], hi@),
            decreases n - b,
        {
            proof {
                assert(known[b as int] == self.entries@[b as int]@);
            }
            b = b + 1;
        }
        proof {
            if b < n {
                assert(known[b as int] == self.entries@[b as int]@);
            }
            assert forall|i: int| a <= i < b implies !left_of(#[trigger] known[i], lo@) by {
                if i > a {
                    assert(precedes(known[a as int], known[i]));
                    assert(proper(known[i]));
                    if left_of(known[i], lo@) {
                        lemma_lex_le_transitive(
                            known[a as int].upper_bound(),
                            known[i].lower_bound(),
                            known[i].upper_bound(),
                        );
                        lemma_lex_le_transitive(
                            known[a as int].upper_bound(),
                            known[i].upper_bound(),
                            lo@,
                        );
                    }
                }
            }
            assert forall|i: int| b <= i < n implies right_of(#[trigger] known[i], hi@) by {
                if i > b {
                    assert(precedes(known[b as int], known[i]));
                    assert(proper(known[b as int]));
                    lemma_lex_le_transitive(
                        hi@,
                        known[b as int].lower_bound(),
                        known[b as int].upper_bound(),
                    );
                    lemma_lex_le_transitive(
                        hi@,
                        known[b as int].upper_bound(),
                        known[i].lower_bound(),
                    );
                }
            }
            assert(marks(known, fresh_views, a as int, b as int));
        }
        let mut k: usize = 0;
        while k < fresh.len()
            invariant
                k <= fresh@.len(),
                fresh_views == entry_views(fresh@),
                entry_views(merged_entries@) == known.take(a as int) + fresh_views.take(k as int),
            decreases fresh@.len() - k,
        {
            let ghost before = entry_views(merged_entries@);
            merged_entries.push(fresh[k].duplicate());
            proof {
                assert(fresh_views[k as int] == fresh@[k as int]@);
                assert(entry_views(merged_entries@) =~= before.push(fresh_views[k as int]));
                assert(fresh_views.take(k + 1) =~= fresh_views.take(k as int).push(
                    fresh_views[k as int],
                ));
                assert(entry_views(merged_entries@) =~= known.take(a as int) + fresh_views.take(
                    k + 1,
                ));
            }
            k = k + 1;
        }
        proof {
            assert(fresh_views.take(k as int) =~= fresh_views);
        }
        let mut r: usize = b;
        proof {
            assert(known.subrange(b as int, r as int) =~= Seq::<EntryView>::empty());
            assert(entry_views(merged_entries@) =~= known.take(a as int) + fresh_views
                + known.subrange(b as int, r as int));
        }
        while r < n
            invariant
                b <= r <= n,
                n == self.entries@.len(),
                known == entry_views(self.entries@),
                entry_views(merged_entries@) == known.take(a as int) + fresh_views
                    + known.subrange(b as int, r as int),
            decreases n - r,
        {
            let ghost before = entry_views(merged_entries@);
            merged_entries.push(self.entries[r].duplicate());
            proof {
                assert(known[r as int] == self.entries@[r as int]@);
                assert(entry_views(merged_entries@) =~= before.push(known[r as int]));
                assert(known.subrange(b as int, r + 1) =~= known.subrange(b as int, r as int).push(
                    known[r as int],
                ));
                assert(entry_views(merged_entries@) =~= known.take(a as int) + fresh_views
                    + known.subrange(b as int, r + 1));
            }
            r = r + 1;
        }
        proof {
            assert(known.subrange(b as int, r as int) =~= known.skip(b as int));
            lemma_merged_partitioned(known, fresh_views, a as int, b as int);
        }
        self.entries = merged_entries;
        Ok((a, b))
    }

    /// Forgets a tablet that turned out to be gone: the entries of that
    /// tablet leave, all others stay in their order. How many left is given
    /// back.
    pub fn invalidate(&mut self, tablet: &TabletId) -> (gone: usize)
        ensures
            partitioned(final(self)@),
            final(self)@ == old(self)@.filter(|entry: EntryView| !names(entry, tablet@)),
            gone == old(self)@.len() - final(self)@.len(),
    {
        proof {
            use_type_invariant(&*self);
        }
        let ghost known = self@;
        let ghost stays = |entry: EntryView| !names(entry, tablet@);
        let wanted = tablet.to_bytes();
        let n = self.entries.len();
        let mut kept: Vec<Entry> = Vec::new();
        let mut i: usize = 0;
        proof {
            assert(known.take(0) =~= Seq::<EntryView>::empty());
            assert(known.take(0).filter(stays) =~= Seq::<EntryView>::empty());
        }
        while i < n
            invariant
                i <= n,
                n == self.entries@.len(),
                known == entry_views(self.entries@),
                wanted@ == tablet@,
                stays == (|entry: EntryView| !names(entry, tablet@)),
                entry_views(kept@) == known.take(i as int).filter(stays),
                kept@.len() <= i,
            decreases n - i,
        {
            let ghost before = entry_views(kept@);
            let entry = &self.entries[i];
            proof {
                assert(known[i as int] == entry@);
                assert(known.take(i + 1) =~= known.take(i as int).push(known[i as int]));
                lemma_filter_push(known.take(i as int), known[i as int], stays);
            }
            let is_it = match entry {
                Entry::Tablet(t) => same_bytes(t.id.to_bytes().as_slice(), wanted.as_slice()),
                Entry::NonCoveredRange { .. } => false,
            };
            if !is_it {
                kept.push(entry.duplicate());
                proof {
                    assert(entry_views(kept@) =~= before.push(known[i as int]));
                }
            }
            i = i + 1;
        }
        proof {
            assert(known.take(i as int) =~= known);
            lemma_filter_keeps_partition(known, stays);
        }
        let gone = n - kept.len();
        self.entries = kept;
        gone
    }
}

/// Whether the entry is the tablet of the given identifier.
pub open spec fn names(entry: EntryView, tablet: Seq<u8>) -> bool {
    entry matches EntryView::Tablet(t) && t.id == tablet
}

/// Whether the entry ends no later than `lo` begins.
fn left_of_window(entry: &Entry, lo: &[u8]) -> (left: bool)
    ensures
        left == left_of(entry@, lo@),
{
    let upper = entry.upper_bound();
    upper.len() > 0 && bytes_le(upper, lo)
}

/// Whether the entry begins no earlier than the stretch up to `hi` ends.
fn right_of_window(entry: &Entry, hi: &[u8]) -> (right: bool)
    ensures
        right == right_of(entry@, hi@),
{
    hi.len() > 0 && bytes_le(hi, entry.lower_bound())
}

/// Filtering a sequence with one more element at its end.
proof fn lemma_filter_push(s: Seq<EntryView>, x: EntryView, keep: spec_fn(EntryView) -> bool)
    ensures
        s.push(x).filter(keep) == if keep(x) {
            s.filter(keep).push(x)
        } else {
            s.filter(keep)
        },
{
    reveal(Seq::filter);
    assert(s.push(x).drop_last() =~= s);
}

/// Every element of a filtered sequence comes from the sequence, and the
/// filter keeps the order.
proof fn lemma_filter_keeps_partition(s: Seq<EntryView>, keep: spec_fn(EntryView) -> bool)
    requires
        partitioned(s),
    ensures
        partitioned(s.filter(keep)),
    decreases s.len(),
{
    reveal(Seq::filter);
    if s.len() > 0 {
        let init = s.drop_last();
        assert(partitioned(init)) by {
            assert forall|i: int| 0 <= i < init.len() implies proper(#[trigger] init[i]) by {
                assert(init[i] == s[i]);
            }
            assert forall|i: int, j: int| 0 <= i < j < init.len() implies precedes(
                #[trigger] init[i],
                #[trigger] init[j],
            ) by {
                assert(init[i] == s[i] && init[j] == s[j]);
            }
        }
        lemma_filter_keeps_partition(init, keep);
        let f = init.filter(keep);
        if keep(s.last()) {
            let g = f.push(s.last());
            assert(s.filter(keep) == g);
            assert forall|i: int| 0 <= i < g.len() implies proper(#[trigger] g[i]) by {
                if i < f.len() {
                    assert(g[i] == f[i]);
                } else {
                    assert(g[i] == s[s.len() - 1]);
                }
            }
            assert forall|i: int, j: int| 0 <= i < j < g.len() implies precedes(
                #[trigger] g[i],
                #[trigger] g[j],
            ) by {
                if j < f.len() {
                    assert(g[i] == f[i] && g[j] == f[j]);
                } else {
                    assert(g[i] == f[i]);
                    assert(f.contains(f[i]));
                    init.lemma_filter_contains_rev(keep, f[i]);
                    let m = choose|m: int| 0 <= m < init.len() && init[m] == f[i];
                    assert(init[m] == s[m]);
                    assert(precedes(s[m], s[s.len() - 1]));
                }
            }
        }
    }
}

/// The keys whose lookup at the master is under way. Whoever asks for a key
/// first starts the lookup; whoever asks while it is under way shares it.
pub struct PendingLookups {
    keys: Vec<Vec<u8>>,
}

impl View for PendingLookups {
    type V = Set<Seq<u8>>;

    closed spec fn view(&self) -> Set<Seq<u8>> {
        Set::new(|key: Seq<u8>| exists|i: int| 0 <= i < self.keys@.len() && self.keys@[i]@ == key)
    }
}

impl PendingLookups {
    /// No lookup under way.
    pub fn new() -> (pending: PendingLookups)
        ensures
            pending@ == Set::<Seq<u8>>::empty(),
    {
        let pending = PendingLookups { keys: Vec::new() };
        proof {
            assert(pending@ =~= Set::<Seq<u8>>::empty());
        }
        pending
    }

    /// Whether a lookup of the key is under way.
    pub fn is_under_way(&self, key: &[u8]) -> (under_way: bool)
        ensures
            under_way == self@.contains(key@),
    {
        let mut i: usize = 0;
        while i < self.keys.len()
            invariant
                i <= self.keys@.len(),
                forall|j: int| 0 <= j < i ==> self.keys@[j]@ != key@,
            decreases self.keys@.len() - i,
        {
            if same_bytes(self.keys[i].as_slice(), key) {
                return true;
            }
            i = i + 1;
        }
        false
    }

    /// Asks for a lookup of the key. The answer is whether the caller is to
    /// start it: yes where none is under way for that key, no where one is.
    /// Either way one is under way afterwards.
    pub fn begin(&mut self, key: &[u8]) -> (start: bool)
        ensures
            start == !old(self)@.contains(key@),
            final(self)@ == old(self)@.insert(key@),
    {
        if self.is_under_way(key) {
            proof {
                assert(self@ =~= self@.insert(key@));
            }
            false
        } else {
            let ghost before = self.keys@;
            self.keys.push(slice_to_vec(key));
            proof {
                assert forall|k: Seq<u8>| self@.contains(k) == old(self)@.insert(key@).contains(
                    k,
                ) by {
                    if old(self)@.contains(k) {
                        let i = choose|i: int| 0 <= i < before.len() && before[i]@ == k;
                        assert(self.keys@[i]@ == k);
                    }
                    if k == key@ {
                        assert(self.keys@[before.len() as int]@ == k);
                    }
                }
                assert(self@ =~= old(self)@.insert(key@));
            }
            true
        }
    }

    /// Records that the lookup of the key has ended: none is under way for
    /// it afterwards.
    pub fn finish(&mut self, key: &[u8])
        ensures
            final(self)@ == old(self)@.remove(key@),
    {
        let mut kept: Vec<Vec<u8>> = Vec::new();
        let mut i: usize = 0;
        while i < self.keys.len()
            invariant
                i <= self.keys@.len(),
                forall|j: int| 0 <= j < kept@.len() ==> (#[trigger] kept@[j])@ != key@,
                forall|j: int|
                    0 <= j < kept@.len() ==> exists|m: int|
                        0 <= m < i && self.keys@[m]@ == (#[trigger] kept@[j])@,
                forall|m: int|
                    0 <= m < i && (#[trigger] self.keys@[m])@ != key@ ==> exists|j: int|
                        0 <= j < kept@.len() && kept@[j]@ == self.keys@[m]@,
            decreases self.keys@.len() - i,
        {
            let ghost before = kept@;
            if !same_bytes(self.keys[i].as_slice(), key) {
                kept.push(slice_to_vec(self.keys[i].as_slice()));
                proof {
                    assert(kept@[before.len() as int]@ == self.keys@[i as int]@);
                    assert forall|m: int|
                        0 <= m < i + 1 && (#[trigger] self.keys@[m])@ != key@ implies exists|j: int|
                        0 <= j < kept@.len() && kept@[j]@ == self.keys@[m]@ by {
                        if m < i {
                            let j = choose|j: int|
                                0 <= j < before.len() && before[j]@ == self.keys@[m]@;
                            assert(kept@[j]@ == self.keys@[m]@);
                        }
                    }
                }
            }
            i = i + 1;
        }
        let ghost before = self@;
        let ghost old_keys = self.keys@;
        self.keys = kept;
        proof {
            assert forall|k: Seq<u8>| self@.contains(k) == before.remove(key@).contains(k) by {
                if self@.contains(k) {
                    let j = choose|j: int| 0 <= j < self.keys@.len() && self.keys@[j]@ == k;
                    let m = choose|m: int| 0 <= m < old_keys.len() && old_keys[m]@ == self.keys@[j]@;
                    assert(old_keys[m]@ == k);
                }
                if before.remove(key@).contains(k) {
                    let m = choose|m: int| 0 <= m < old_keys.len() && old_keys[m]@ == k;
                    assert(old_keys[m]@ != key@);
                }
            }
            assert(self@ =~= before.remove(key@));
        }
    }
}

/// At most one lookup per key: of any number of askers for a key that come
/// while no lookup of it has ended, only the first starts one. Once a key is
/// under way it stays so whatever other keys are asked for, and asking for
/// it again starts nothing.
pub proof fn lemma_one_lookup_per_key(before: Set<Seq<u8>>, key: Seq<u8>, others: Set<Seq<u8>>)
    ensures
        before.insert(key).contains(key),
        before.insert(key).union(others).contains(key),
        before.insert(key).insert(key) == before.insert(key),
{
    assert(before.insert(key).insert(key) =~= before.insert(key));
}

} // verus!
