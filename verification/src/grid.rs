//! The sheet: cell values stored under case-insensitive cell references.

use vstd::prelude::*;
use vstd::utf8::is_ascii_chars;
use crate::text::{ascii_upper, to_uppercase, upper_form};

verus! {

/// The value held by a cell.  A number is held as the bits of its IEEE 754
/// double-precision representation (`f64::to_bits`).
#[derive(Debug, Clone, PartialEq)]
pub enum CellValue {
    Empty,
    Number(u64),
    Text(String),
    Formula(String),
}

/// A cell value with its text as a sequence of characters.
pub enum CellValueView {
    Empty,
    Number(u64),
    Text(Seq<char>),
    Formula(Seq<char>),
}

impl View for CellValue {
    type V = CellValueView;

    open spec fn view(&self) -> CellValueView {
        match self {
            CellValue::Empty => CellValueView::Empty,
            CellValue::Number(bits) => CellValueView::Number(*bits),
            CellValue::Text(s) => CellValueView::Text(s@),
            CellValue::Formula(s) => CellValueView::Formula(s@),
        }
    }
}

impl CellValue {
    /// A copy of this value.
    pub fn duplicate(&self) -> (r: CellValue)
        ensures
            r@ == self@,
    {
        match self {
            CellValue::Empty => CellValue::Empty,
            CellValue::Number(bits) => CellValue::Number(*bits),
            CellValue::Text(s) => CellValue::Text(s.clone()),
            CellValue::Formula(s) => CellValue::Formula(s.clone()),
        }
    }
}

/// The first index at or after `i` whose key is `k`.
pub open spec fn key_index_from(keys: Seq<Seq<char>>, k: Seq<char>, i: int) -> Option<int>
    decreases keys.len() - i,
{
    if i < 0 || i >= keys.len() {
        None
    } else if keys[i] == k {
        Some(i)
    } else {
        key_index_from(keys, k, i + 1)
    }
}

proof fn lemma_key_index_from(keys: Seq<Seq<char>>, k: Seq<char>, i: int)
    requires
        0 <= i,
    ensures
        key_index_from(keys, k, i) matches Some(j) ==> i <= j < keys.len() && keys[j] == k,
        key_index_from(keys, k, i) is None ==> forall|j: int| i <= j < keys.len() ==> keys[j] != k,
    decreases keys.len() - i,
{
    if i < keys.len() && keys[i] != k {
        lemma_key_index_from(keys, k, i + 1);
    }
}

proof fn lemma_key_index_skip(keys: Seq<Seq<char>>, k: Seq<char>, j: int, i: int)
    requires
        0 <= j <= i,
        forall|m: int| j <= m < i ==> keys[m] != k,
    ensures
        key_index_from(keys, k, j) == key_index_from(keys, k, i),
    decreases i - j,
{
    if j < i {
        lemma_key_index_skip(keys, k, j + 1, i);
    }
}

proof fn lemma_key_index_push(keys: Seq<Seq<char>>, newk: Seq<char>, k: Seq<char>, i: int)
    requires
        0 <= i <= keys.len(),
    ensures
        key_index_from(keys.push(newk), k, i) == (if key_index_from(keys, k, i) is Some {
            key_index_from(keys, k, i)
        } else if k == newk {
            Some(keys.len() as int)
        } else {
            None::<int>
        }),
    decreases keys.len() - i,
{
    if i < keys.len() {
        assert(keys.push(newk)[i] == keys[i]);
        if keys[i] != k {
            lemma_key_index_push(keys, newk, k, i + 1);
        }
    } else {
        assert(keys.push(newk)[i] == newk);
        assert(key_index_from(keys.push(newk), k, i + 1) is None);
    }
}

/// The cells of a sheet: keys without repeats, each with its value.
///
/// The cells are kept as a list of key/value pairs rather than in a std
/// `HashMap<String, _>`: from vstd's specification of a map keyed by
/// `String`, a lookup after an insert could not be proved, while on this list
/// both the lookup and the uniqueness of keys are proved below.
struct CellStore {
    entries: Vec<(String, CellValue)>,
}

impl CellStore {
    spec fn keys(self) -> Seq<Seq<char>> {
        self.entries@.map_values(|e: (String, CellValue)| e.0@)
    }

    #[verifier::type_invariant]
    spec fn keys_distinct(self) -> bool {
        self.keys().no_duplicates()
    }

    spec fn view(self) -> Map<Seq<char>, CellValueView> {
        Map::new(
            |k: Seq<char>| key_index_from(self.keys(), k, 0) is Some,
            |k: Seq<char>| self.entries@[key_index_from(self.keys(), k, 0)->0].1@,
        )
    }

    fn new() -> (s: Self)
        ensures
            s.view() == Map::<Seq<char>, CellValueView>::empty(),
    {
        let s = CellStore { entries: Vec::new() };
        assert(s.view() =~= Map::<Seq<char>, CellValueView>::empty());
        s
    }

    fn find(&self, key: &String) -> (r: Option<usize>)
        ensures
            r matches Some(i) ==> i < self.entries@.len() && key_index_from(self.keys(), key@, 0) == Some(i as int),
            r is None ==> key_index_from(self.keys(), key@, 0) is None,
    {
        let n = self.entries.len();
        let mut i: usize = 0;
        while i < n
            invariant
                n == self.entries@.len(),
                i <= n,
                forall|j: int| 0 <= j < i ==> self.keys()[j] != key@,
            decreases n - i,
        {
            if self.entries[i].0 == *key {
                proof {
                    lemma_key_index_skip(self.keys(), key@, 0, i as int);
                }
                return Some(i);
            }
            i = i + 1;
        }
        proof {
            lemma_key_index_from(self.keys(), key@, 0);
        }
        None
    }

    fn insert(&mut self, key: String, value: CellValue)
        ensures
            final(self).view() == old(self).view().insert(key@, value@),
    {
        proof {
            use_type_invariant(&*self);
        }
        let ghost old_keys = self.keys();
        let ghost old_entries = self.entries@;
        let ghost old_view = self.view();
        let ghost kv = key@;
        let ghost vv = value@;
        let found = self.find(&key);
        let mut entries: Vec<(String, CellValue)> = Vec::new();
        std::mem::swap(&mut entries, &mut self.entries);
        assert(entries@ == old_entries);
        match found {
            Some(i) => {
                proof {
                    lemma_key_index_from(old_keys, kv, 0);
                }
                entries.set(i, (key, value));
                assert(entries@.map_values(|e: (String, CellValue)| e.0@) =~= old_keys);
                self.entries = entries;
                assert(self.keys() =~= old_keys);
                assert forall|k: Seq<char>| #[trigger] old_view.contains_key(k) && k != kv implies self.view()[k]
                    == old_view[k] by {
                    lemma_key_index_from(old_keys, k, 0);
                    let j = key_index_from(old_keys, k, 0)->0;
                    assert(j != i);
                    assert(self.entries@[j] == old_entries[j]);
                }
                assert forall|k: Seq<char>| #[trigger] self.view().contains_key(k) implies self.view()[k]
                    == old_view.insert(kv, vv)[k] by {
                    if k != kv {
                        assert(old_view.contains_key(k));
                    }
                }
                assert(key_index_from(self.keys(), kv, 0) == Some(i as int));
                assert(self.view()[kv] == vv);
                assert forall|k: Seq<char>| self.view().contains_key(k) <==> #[trigger] old_view.insert(kv, vv).contains_key(k) by {}
                assert(self.view() =~= old_view.insert(kv, vv));
            },
            None => {
                assert forall|a: int, b: int| 0 <= a < b < old_keys.push(kv).len() implies old_keys.push(kv)[a]
                    != old_keys.push(kv)[b] by {
                    if b == old_keys.len() {
                        lemma_key_index_from(old_keys, kv, 0);
                    }
                }
                entries.push((key, value));
                assert(entries@.map_values(|e: (String, CellValue)| e.0@) =~= old_keys.push(kv));
                self.entries = entries;
                assert(self.keys() =~= old_keys.push(kv));
                assert forall|k: Seq<char>| #![trigger key_index_from(self.keys(), k, 0)] true implies key_index_from(self.keys(), k, 0) == (if key_index_from(old_keys, k, 0) is Some {
                    key_index_from(old_keys, k, 0)
                } else if k == kv {
                    Some(old_keys.len() as int)
                } else {
                    None::<int>
                }) by {
                    lemma_key_index_push(old_keys, kv, k, 0);
                }
                assert forall|k: Seq<char>| #[trigger] self.view().contains_key(k) implies self.view()[k]
                    == old_view.insert(kv, vv)[k] by {
                    lemma_key_index_push(old_keys, kv, k, 0);
                    lemma_key_index_from(old_keys, k, 0);
                    if k == kv {
                        assert(key_index_from(self.keys(), k, 0) == Some(old_keys.len() as int));
                    } else {
                        assert(key_index_from(self.keys(), k, 0) == key_index_from(old_keys, k, 0));
                    }
                }
                assert forall|k: Seq<char>| self.view().contains_key(k) <==> #[trigger] old_view.insert(kv, vv).contains_key(k) by {
                    lemma_key_index_push(old_keys, kv, k, 0);
                }
                assert(self.view() =~= old_view.insert(kv, vv));
            },
        }
    }

    fn get(&self, key: &String) -> (r: CellValue)
        ensures
            r@ == (if self.view().contains_key(key@) {
                self.view()[key@]
            } else {
                CellValueView::Empty
            }),
    {
        match self.find(key) {
            Some(i) => self.entries[i].1.duplicate(),
            None => CellValue::Empty,
        }
    }
}

/// A worksheet: a name and the values of its cells, stored under the
/// uppercase form of their references (so `a1` and `A1` name one cell).
pub struct XcvSheet {
    pub name: String,
    cells: CellStore,
}

/// The cell that a reference names: its uppercase form (for an ASCII
/// reference, its letters `a`..`z` made `A`..`Z`).
pub open spec fn cell_key(ref_id: Seq<char>) -> Seq<char> {
    upper_form(ref_id)
}

/// What reading `ref_id` from a sheet with cells `cells` gives.
pub open spec fn read_cell(cells: Map<Seq<char>, CellValueView>, ref_id: Seq<char>) -> CellValueView {
    if cells.contains_key(cell_key(ref_id)) {
        cells[cell_key(ref_id)]
    } else {
        CellValueView::Empty
    }
}

impl XcvSheet {
    /// The values of the sheet's cells, by key.
    pub closed spec fn cells(&self) -> Map<Seq<char>, CellValueView> {
        self.cells.view()
    }

    /// The sheet's name.
    pub closed spec fn title(&self) -> Seq<char> {
        self.name@
    }

    /// The sheet's name.
    pub fn sheet_name(&self) -> (r: &str)
        ensures
            r@ == self.title(),
    {
        self.name.as_str()
    }

    /// An empty sheet named `name`.
    pub fn new(name: &str) -> (s: Self)
        ensures
            s.title() == name@,
            s.cells() == Map::<Seq<char>, CellValueView>::empty(),
    {
        XcvSheet { name: name.to_owned(), cells: CellStore::new() }
    }

    /// Stores `value` in the cell that `ref_id` names, replacing what it held.
    pub fn set_cell(&mut self, ref_id: &str, value: CellValue)
        ensures
            final(self).title() == old(self).title(),
            final(self).cells() == old(self).cells().insert(cell_key(ref_id@), value@),
    {
        let key = to_uppercase(ref_id);
        self.cells.insert(key, value);
    }

    /// The value of the cell that `ref_id` names, or `Empty` if it was never set.
    pub fn get_cell(&self, ref_id: &str) -> (r: CellValue)
        ensures
            r@ == read_cell(self.cells(), ref_id@),
    {
        let key = to_uppercase(ref_id);
        self.cells.get(&key)
    }
}

/// Reading a cell gives back the value last written to it: after `set_cell`
/// of `a`, a read of any reference `b` naming the same cell gives the value
/// written, and a read of any other cell gives what it gave before.
pub proof fn law_read_after_write(
    cells: Map<Seq<char>, CellValueView>,
    a: Seq<char>,
    value: CellValueView,
    b: Seq<char>,
)
    ensures
        cell_key(a) == cell_key(b) ==> read_cell(cells.insert(cell_key(a), value), b) == value,
        cell_key(a) != cell_key(b) ==> read_cell(cells.insert(cell_key(a), value), b) == read_cell(
            cells,
            b,
        ),
{
}

/// Case does not matter in ASCII references: two ASCII references that agree
/// once their letters are uppercased name the same cell (so `a1` and `A1` do).
pub proof fn law_ascii_case_insensitive(a: Seq<char>, b: Seq<char>)
    requires
        is_ascii_chars(a),
        is_ascii_chars(b),
        ascii_upper(a) == ascii_upper(b),
    ensures
        cell_key(a) == cell_key(b),
{
}

/// Every cell of a new sheet reads as empty.
pub proof fn law_new_sheet_empty(b: Seq<char>)
    ensures
        read_cell(Map::<Seq<char>, CellValueView>::empty(), b) == CellValueView::Empty,
{
}

/// Writing one cell twice leaves the second value, as if the first write had
/// not happened.
pub proof fn law_last_write_wins(
    cells: Map<Seq<char>, CellValueView>,
    a: Seq<char>,
    first: CellValueView,
    second: CellValueView,
)
    ensures
        cells.insert(cell_key(a), first).insert(cell_key(a), second) == cells.insert(
            cell_key(a),
            second,
        ),
{
    assert(cells.insert(cell_key(a), first).insert(cell_key(a), second) =~= cells.insert(
        cell_key(a),
        second,
    ));
}

/// Writes to different cells commute.
pub proof fn law_writes_commute(
    cells: Map<Seq<char>, CellValueView>,
    a: Seq<char>,
    va: CellValueView,
    b: Seq<char>,
    vb: CellValueView,
)
    requires
        cell_key(a) != cell_key(b),
    ensures
        cells.insert(cell_key(a), va).insert(cell_key(b), vb) == cells.insert(cell_key(b), vb).insert(
            cell_key(a),
            va,
        ),
{
    assert(cells.insert(cell_key(a), va).insert(cell_key(b), vb) =~= cells.insert(cell_key(b), vb).insert(
        cell_key(a),
        va,
    ));
}

} // verus!
