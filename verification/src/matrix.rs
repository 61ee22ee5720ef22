//! A compressed-row-storage sparse matrix distributed over the PEs.
//!
//! Row `row` lives on PE `row % n_pes`, as that PE's local row
//! `row / n_pes`. Each PE stores its rows in three arrays: the column of
//! every stored element (`col_idxs`), its value (`xs`), and where each
//! local row starts in those two (`row_ptrs`).
use vstd::prelude::*;

use crate::shmalloc::{Bound, Bounds, RemoteSliceRead, Shmallocator};
use crate::shvec::{Shvec, WouldRealloc};
use crate::{ShmemCtx, PE};

verus! {

/// One of two error kinds.
#[derive(Debug)]
pub enum Either<L, R> {
    /// The first kind.
    L(L),
    /// The second kind.
    R(R),
}

/// The row asked for is stored on another PE.
#[derive(Debug)]
pub struct RowOnDifferentPe;

/// Every element is no larger than the ones after it.
pub open spec fn sorted(s: Seq<usize>) -> bool {
    forall|i: int, j: int| 0 <= i <= j < s.len() ==> s[i] <= s[j]
}

/// Every element is smaller than the ones after it.
pub open spec fn strictly_sorted(s: Seq<usize>) -> bool {
    forall|i: int, j: int| 0 <= i < j < s.len() ==> s[i] < s[j]
}

/// The value stored for column `col` in a row whose columns are `cols`
/// and whose values are `vals`, if the row has that column.
pub open spec fn lookup<V>(cols: Seq<usize>, vals: Seq<V>, col: int) -> Option<V> {
    if exists|k: int| 0 <= k < cols.len() && cols[k] == col {
        Some(vals[choose|k: int| 0 <= k < cols.len() && cols[k] == col])
    } else {
        None
    }
}

/// In a row with strictly sorted columns, the value of the column at
/// position `k` is the value at position `k`.
pub proof fn lemma_lookup_at<V>(cols: Seq<usize>, vals: Seq<V>, k: int)
    requires
        strictly_sorted(cols),
        0 <= k < cols.len(),
    ensures
        lookup(cols, vals, cols[k] as int) == Some(vals[k]),
{
    let c = cols[k] as int;
    assert(exists|j: int| 0 <= j < cols.len() && cols[j] == c);
    let j = choose|j: int| 0 <= j < cols.len() && cols[j] == c;
    if j < k {
        assert(cols[j] < cols[k]);
    } else if j > k {
        assert(cols[k] < cols[j]);
    }
}

/// Inserting a column at its sorted place keeps the columns strictly
/// sorted, gives the new column the new value, and keeps every other
/// column's value.
pub proof fn lemma_lookup_insert<V>(cols: Seq<usize>, vals: Seq<V>, i: int, col: usize, v: V)
    requires
        strictly_sorted(cols),
        cols.len() == vals.len(),
        0 <= i <= cols.len(),
        forall|j: int| 0 <= j < i ==> cols[j] < col,
        forall|j: int| i <= j < cols.len() ==> cols[j] > col,
    ensures
        strictly_sorted(cols.insert(i, col)),
        lookup(cols.insert(i, col), vals.insert(i, v), col as int) == Some(v),
        forall|c: int|
            c != col ==> lookup(cols.insert(i, col), vals.insert(i, v), c) == lookup(cols, vals, c),
{
    let nc = cols.insert(i, col);
    let nv = vals.insert(i, v);
    cols.insert_ensures(i, col);
    vals.insert_ensures(i, v);
    assert forall|a: int, b: int| 0 <= a < b < nc.len() implies nc[a] < nc[b] by {
        if b < i {
        } else if b == i {
        } else if a < i {
            assert(nc[b] == cols[b - 1]);
        } else if a == i {
            assert(nc[b] == cols[b - 1]);
        } else {
            assert(nc[a] == cols[a - 1]);
            assert(nc[b] == cols[b - 1]);
        }
    }
    lemma_lookup_at(nc, nv, i);
    assert forall|c: int| c != col implies lookup(nc, nv, c) == lookup(cols, vals, c) by {
        if exists|k: int| 0 <= k < cols.len() && cols[k] == c {
            let k = choose|k: int| 0 <= k < cols.len() && cols[k] == c;
            lemma_lookup_at(cols, vals, k);
            if k < i {
                assert(nc[k] == cols[k]);
                lemma_lookup_at(nc, nv, k);
            } else {
                assert(nc[k + 1] == cols[k]);
                lemma_lookup_at(nc, nv, k + 1);
            }
        } else {
            assert forall|k: int| 0 <= k < nc.len() implies nc[k] != c by {
                if k < i {
                    assert(nc[k] == cols[k]);
                } else if k > i {
                    assert(nc[k] == cols[k - 1]);
                }
            }
        }
    }
}

/// Replacing the value at position `i` changes the value of that
/// position's column only.
pub proof fn lemma_lookup_update<V>(cols: Seq<usize>, vals: Seq<V>, i: int, v: V)
    requires
        strictly_sorted(cols),
        cols.len() == vals.len(),
        0 <= i < cols.len(),
    ensures
        lookup(cols, vals.update(i, v), cols[i] as int) == Some(v),
        forall|c: int| c != cols[i] ==> lookup(cols, vals.update(i, v), c) == lookup(cols, vals, c),
{
    let nv = vals.update(i, v);
    lemma_lookup_at(cols, nv, i);
    assert forall|c: int| c != cols[i] implies lookup(cols, nv, c) == lookup(cols, vals, c) by {
        if exists|k: int| 0 <= k < cols.len() && cols[k] == c {
            let k = choose|k: int| 0 <= k < cols.len() && cols[k] == c;
            lemma_lookup_at(cols, vals, k);
            lemma_lookup_at(cols, nv, k);
        }
    }
}

/// Searches the sorted `s` for `x`: `Ok(i)` when `s[i] == x`, otherwise
/// `Err(i)` with `i` the position where `x` would be inserted to keep
/// `s` sorted.
pub fn binary_search(s: &[usize], x: usize) -> (r: Result<usize, usize>)
    requires
        sorted(s@),
    ensures
        r is Ok ==> r->Ok_0 < s@.len() && s@[r->Ok_0 as int] == x,
        r is Err ==> r->Err_0 <= s@.len() && (forall|j: int| 0 <= j < r->Err_0 ==> s@[j] < x) && (
        forall|j: int| r->Err_0 <= j < s@.len() ==> s@[j] > x),
{
    let mut lo: usize = 0;
    let mut hi: usize = s.len();
    while lo < hi
        invariant
            sorted(s@),
            lo <= hi <= s@.len(),
            forall|j: int| 0 <= j < lo ==> s@[j] < x,
            forall|j: int| hi <= j < s@.len() ==> s@[j] > x,
        decreases hi - lo,
    {
        let mid = lo + (hi - lo) / 2;
        if s[mid] < x {
            lo = mid + 1;
        } else if s[mid] > x {
            hi = mid;
        } else {
            return Ok(mid);
        }
    }
    Err(lo)
}

/// The read that fetches the value at column `col` of a row stored on PE
/// `pe`, given where the row starts there (`start`) and its columns
/// (`cols`, fetched from that PE): one element at the column's position,
/// or none when the row does not have the column.
pub fn remote_value_read(pe: PE, start: usize, cols: &[usize], col: usize) -> (r: Option<RemoteSliceRead>)
    requires
        strictly_sorted(cols@),
        start + cols@.len() <= usize::MAX,
    ensures
        r is None <==> !cols@.contains(col),
        r matches Some(rd) ==> rd.pe == pe && rd.count == 1 && start <= rd.offset < start + cols@.len()
            && cols@[rd.offset - start] == col,
{
    match binary_search(cols, col) {
        Ok(at) => Some(RemoteSliceRead { pe, offset: start + at, count: 1 }),
        Err(at) => {
            proof {
                assert forall|j: int| 0 <= j < cols@.len() implies cols@[j] != col by {
                    if j < at {
                    } else {
                    }
                }
            }
            None
        },
    }
}

} // verus!

verus! {

/// Row pointers are well formed for `total` stored elements: they start
/// at zero, never decrease, and end at `total`.
pub open spec fn ptrs_ok(ptr: Seq<usize>, total: int) -> bool {
    &&& ptr.len() >= 1
    &&& ptr[0] == 0
    &&& ptr[ptr.len() - 1] == total
    &&& forall|a: int, b: int| 0 <= a <= b < ptr.len() ==> ptr[a] <= ptr[b]
}

/// The part of `s` that local row `r` covers.
pub open spec fn row_of<V>(s: Seq<V>, ptr: Seq<usize>, r: int) -> Seq<V> {
    s.subrange(ptr[r] as int, ptr[r + 1] as int)
}

/// The row pointers after one element was inserted into local row `r`:
/// every later row starts one further on.
pub open spec fn bumped(ptr: Seq<usize>, r: int) -> Seq<usize> {
    Seq::new(ptr.len(), |k: int| if k > r { (ptr[k] + 1) as usize } else { ptr[k] })
}

/// Bumping the row pointers after an insertion into local row `r` keeps
/// them well formed for one more element.
pub proof fn lemma_bumped_ok(ptr: Seq<usize>, total: int, r: int)
    requires
        ptrs_ok(ptr, total),
        0 <= r < ptr.len() - 1,
        total < usize::MAX,
    ensures
        ptrs_ok(bumped(ptr, r), total + 1),
{
    let np = bumped(ptr, r);
    assert forall|a: int, b: int| 0 <= a <= b < np.len() implies np[a] <= np[b] by {
        assert(ptr[a] <= ptr[b]);
        assert(ptr[b] <= ptr[ptr.len() - 1]);
    }
}

/// Inserting an element at position `p` of local row `r` grows that row
/// by the element, once the row pointers are bumped.
#[verifier::spinoff_prover]
pub proof fn lemma_row_after_insert<V>(s: Seq<V>, ptr: Seq<usize>, r: int, p: int, x: V)
    requires
        ptrs_ok(ptr, s.len() as int),
        0 <= r < ptr.len() - 1,
        ptr[r] <= p <= ptr[r + 1],
        s.len() < usize::MAX,
    ensures
        row_of(s.insert(p, x), bumped(ptr, r), r) == row_of(s, ptr, r).insert(p - ptr[r], x),
{
    let ns = s.insert(p, x);
    let np = bumped(ptr, r);
    s.insert_ensures(p, x);
    assert(ptr[r + 1] <= ptr[ptr.len() - 1]);
    let old_row = row_of(s, ptr, r);
    let new_row = row_of(ns, np, r);
    let q = p - ptr[r];
    let want = old_row.insert(q, x);
    old_row.insert_ensures(q, x);
    assert(new_row.len() == want.len());
    assert forall|j: int| 0 <= j < new_row.len() implies new_row[j] == want[j] by {
        assert(new_row[j] == ns[ptr[r] + j]);
        if j < q {
            assert(want[j] == old_row[j]);
        } else if j == q {
        } else {
            assert(want[(j - 1) + 1] == old_row[j - 1]);
            assert(ns[(ptr[r] + j - 1) + 1] == s[ptr[r] + j - 1]);
        }
    }
    assert(new_row =~= want);
}

/// Inserting an element into local row `r` leaves local row `r2` as it
/// was, once the row pointers are bumped.
#[verifier::spinoff_prover]
#[verifier::rlimit(30)]
pub proof fn lemma_other_row_after_insert<V>(s: Seq<V>, ptr: Seq<usize>, r: int, p: int, x: V, r2: int)
    requires
        ptrs_ok(ptr, s.len() as int),
        0 <= r < ptr.len() - 1,
        0 <= r2 < ptr.len() - 1,
        r2 != r,
        ptr[r] <= p <= ptr[r + 1],
        s.len() < usize::MAX,
    ensures
        row_of(s.insert(p, x), bumped(ptr, r), r2) == row_of(s, ptr, r2),
{
    let ns = s.insert(p, x);
    let np = bumped(ptr, r);
    s.insert_ensures(p, x);
    assert(ptr[r2] <= ptr[r2 + 1]);
    assert(ptr[r2 + 1] <= ptr[ptr.len() - 1]);
    let old_row = row_of(s, ptr, r2);
    let new_row = row_of(ns, np, r2);
    if r2 < r {
        assert(ptr[r2 + 1] <= ptr[r]);
        assert forall|j: int| 0 <= j < new_row.len() implies new_row[j] == old_row[j] by {
            assert(new_row[j] == ns[ptr[r2] + j]);
        }
    } else {
        assert(ptr[r + 1] <= ptr[r2]);
        assert forall|j: int| 0 <= j < new_row.len() implies new_row[j] == old_row[j] by {
            assert(new_row[j] == ns[ptr[r2] + 1 + j]);
            assert(ns[ptr[r2] + 1 + j] == s[ptr[r2] + j]);
        }
    }
    assert(new_row =~= old_row);
}

/// Replacing the element at position `p` of local row `r` changes that
/// row only.
pub proof fn lemma_rows_after_update<V>(s: Seq<V>, ptr: Seq<usize>, r: int, p: int, x: V)
    requires
        ptrs_ok(ptr, s.len() as int),
        0 <= r < ptr.len() - 1,
        ptr[r] <= p < ptr[r + 1],
    ensures
        row_of(s.update(p, x), ptr, r) == row_of(s, ptr, r).update(p - ptr[r], x),
        forall|r2: int|
            0 <= r2 < ptr.len() - 1 && r2 != r ==> row_of(s.update(p, x), ptr, r2) == row_of(
                s,
                ptr,
                r2,
            ),
{
    let ns = s.update(p, x);
    assert(ptr[r + 1] <= ptr[ptr.len() - 1]);
    assert(row_of(ns, ptr, r) =~= row_of(s, ptr, r).update(p - ptr[r], x));
    assert forall|r2: int| 0 <= r2 < ptr.len() - 1 && r2 != r implies row_of(ns, ptr, r2) == row_of(
        s,
        ptr,
        r2,
    ) by {
        assert(ptr[r2] <= ptr[r2 + 1]);
        assert(ptr[r2 + 1] <= ptr[ptr.len() - 1]);
        if r2 < r {
            assert(ptr[r2 + 1] <= ptr[r]);
        } else {
            assert(ptr[r + 1] <= ptr[r2]);
        }
        assert(row_of(ns, ptr, r2) =~= row_of(s, ptr, r2));
    }
}

/// The number of local rows each PE holds when `rows` rows are spread
/// over `pes` PEs: `rows` divided by `pes`, rounded up.
pub open spec fn rows_per_pe_spec(rows: int, pes: int) -> int {
    rows / pes + if rows % pes == 0 {
        0int
    } else {
        1int
    }
}

/// A row below `rows` has a local row index below the number of local rows.
pub proof fn lemma_local_row_bound(row: int, rows: int, pes: int)
    requires
        0 <= row < rows,
        pes > 0,
    ensures
        0 <= row / pes < rows_per_pe_spec(rows, pes),
{
    vstd::arithmetic::div_mod::lemma_fundamental_div_mod(row, pes);
    vstd::arithmetic::div_mod::lemma_fundamental_div_mod(rows, pes);
    vstd::arithmetic::div_mod::lemma_div_is_ordered(row, rows, pes);
    vstd::arithmetic::div_mod::lemma_div_pos_is_pos(row, pes);
    if row / pes == rows / pes && rows % pes == 0 {
        assert(rows == pes * (rows / pes));
        assert(row == pes * (row / pes) + row % pes);
        assert(row % pes >= 0) by {
            vstd::arithmetic::div_mod::lemma_mod_pos_bound(row, pes);
        }
    }
}

/// Two rows with the same owner and the same local row index are the
/// same row.
pub proof fn lemma_same_row(a: int, b: int, pes: int)
    requires
        a >= 0,
        b >= 0,
        pes > 0,
        a % pes == b % pes,
        a / pes == b / pes,
    ensures
        a == b,
{
    vstd::arithmetic::div_mod::lemma_fundamental_div_mod(a, pes);
    vstd::arithmetic::div_mod::lemma_fundamental_div_mod(b, pes);
}

/// A compressed-row-storage matrix whose rows are spread over the PEs;
/// the value here holds the rows of the calling PE.
pub struct CrsMatrix<'ctx, T> {
    rows: usize,
    cols: usize,
    pes: usize,
    rows_per_pe: usize,
    mpe: usize,
    ctx: &'ctx ShmemCtx,
    shm: &'ctx Shmallocator<'ctx>,
    col_idxs: Shvec<'ctx, usize>,
    xs: Shvec<'ctx, T>,
    row_ptrs: Vec<usize>,
}

impl<'ctx, T> View for CrsMatrix<'ctx, T> {
    type V = Map<(int, int), T>;

    /// The elements stored on the calling PE, by `(row, col)`.
    closed spec fn view(&self) -> Map<(int, int), T> {
        Map::new(
            |k: (int, int)| self.entry(k.0, k.1) is Some,
            |k: (int, int)| self.entry(k.0, k.1)->Some_0,
        )
    }
}

impl<'ctx, T> CrsMatrix<'ctx, T> {
    /// Rows in the matrix.
    pub closed spec fn n_rows(&self) -> nat {
        self.rows as nat
    }

    /// Columns in the matrix.
    pub closed spec fn n_cols(&self) -> nat {
        self.cols as nat
    }

    /// PEs the rows are spread over.
    pub closed spec fn n_pes(&self) -> nat {
        self.pes as nat
    }

    /// The calling PE.
    pub closed spec fn this_pe(&self) -> nat {
        self.mpe as nat
    }

    /// Elements stored on the calling PE.
    pub closed spec fn stored(&self) -> nat {
        self.xs@.len()
    }

    /// Elements the calling PE can store without growing its buffers.
    pub closed spec fn cap(&self) -> nat {
        self.xs.cap()
    }

    /// Row `row` is stored on the calling PE.
    pub open spec fn is_local(&self, row: int) -> bool {
        row % (self.n_pes() as int) == self.this_pe()
    }

    /// The columns stored for local row `r`.
    pub closed spec fn row_cols(&self, r: int) -> Seq<usize> {
        row_of(self.col_idxs@, self.row_ptrs@, r)
    }

    /// The values stored for local row `r`.
    pub closed spec fn row_vals(&self, r: int) -> Seq<T> {
        row_of(self.xs@, self.row_ptrs@, r)
    }

    /// The element at `(row, col)` when row `row` is stored on the
    /// calling PE and has that column.
    pub closed spec fn entry(&self, row: int, col: int) -> Option<T> {
        if 0 <= row < self.rows && self.is_local(row) {
            lookup(self.row_cols(row / (self.pes as int)), self.row_vals(row / (self.pes as int)), col)
        } else {
            None
        }
    }

    /// The number of row slots each PE keeps: `rows.div_ceil(n_pes)`.
    pub open spec fn local_rows(&self) -> int {
        rows_per_pe_spec(self.n_rows() as int, self.n_pes() as int)
    }

    /// The matrix's storage is consistent: the PEs are laid out as the
    /// context says, the row pointers delimit the rows, and each row's
    /// columns are strictly increasing.
    pub closed spec fn wf(&self) -> bool {
        &&& 0 < self.pes <= u32::MAX
        &&& self.mpe < self.pes
        &&& self.rows_per_pe == rows_per_pe_spec(self.rows as int, self.pes as int)
        &&& self.row_ptrs@.len() == self.rows_per_pe + 1
        &&& ptrs_ok(self.row_ptrs@, self.col_idxs@.len() as int)
        &&& self.col_idxs@.len() == self.xs@.len()
        &&& self.col_idxs.wf()
        &&& self.xs.wf()
        &&& self.col_idxs.cap() == self.xs.cap()
        &&& forall|r: int| 0 <= r < self.rows_per_pe ==> strictly_sorted(#[trigger] self.row_cols(r))
    }

    /// Given a row, return the index into the row pointers of its owner
    /// and the PE that owns it.
    ///
    /// The caller must rule out the case where the row is out of bounds.
    pub fn global_row_to_pe_row(&self, row: usize) -> (r: (usize, PE))
        requires
            self.wf(),
            row < self.n_rows(),
        ensures
            r.0 == row as int / self.n_pes() as int,
            r.1.0 == row as int % self.n_pes() as int,
            r.0 < self.local_rows(),
            r.1.0 < self.n_pes(),
    {
        proof {
            lemma_local_row_bound(row as int, self.rows as int, self.pes as int);
        }
        (row / self.pes, PE((row % self.pes) as u32))
    }

    /// The row pointers of the calling PE: local row `r` is stored at
    /// positions `row_ptrs[r]..row_ptrs[r + 1]` of the columns and values.
    pub closed spec fn ptr_seq(&self) -> Seq<usize> {
        self.row_ptrs@
    }

    /// The column of every element stored on the calling PE.
    pub closed spec fn col_seq(&self) -> Seq<usize> {
        self.col_idxs@
    }

    /// The value of every element stored on the calling PE.
    pub closed spec fn val_seq(&self) -> Seq<T> {
        self.xs@
    }

    /// The layout of the calling PE's rows: local row `r` holds the
    /// columns and values at positions `ptrs[r]..ptrs[r + 1]`.
    pub proof fn lemma_layout(&self, r: int)
        requires
            self.wf(),
            0 <= r < self.ptr_seq().len() - 1,
        ensures
            self.row_cols(r) == self.col_seq().subrange(self.ptr_seq()[r] as int, self.ptr_seq()[r + 1] as int),
            self.row_vals(r) == self.val_seq().subrange(self.ptr_seq()[r] as int, self.ptr_seq()[r + 1] as int),
            self.ptr_seq()[r] <= self.ptr_seq()[r + 1] <= self.col_seq().len(),
            self.col_seq().len() == self.val_seq().len(),
            strictly_sorted(self.row_cols(r)),
    {
        assert(self.row_ptrs@[r] <= self.row_ptrs@[r + 1]);
        assert(self.row_ptrs@[r + 1] <= self.row_ptrs@[self.rows_per_pe as int]);
    }

    /// The shape of a well-formed matrix: at least one PE, the calling PE
    /// one of them, and one row pointer per local row slot and one more;
    /// the pointers start at 0, never decrease and end at the number of
    /// elements stored, with one column and one value per element.
    pub proof fn lemma_wf_shape(&self)
        requires
            self.wf(),
        ensures
            self.n_pes() > 0,
            self.this_pe() < self.n_pes(),
            self.ptr_seq().len() == self.local_rows() + 1,
            ptrs_ok(self.ptr_seq(), self.stored() as int),
            self.col_seq().len() == self.stored(),
            self.val_seq().len() == self.stored(),
    {
    }

    /// The contents read off the layout. Position `(row, col)` is held
    /// only when `row` is a row of the calling PE; then it is held exactly
    /// when `col` is among the columns at positions
    /// `ptr_seq[row / n_pes] .. ptr_seq[row / n_pes + 1]`, and its value is
    /// the value at the same position.
    pub proof fn lemma_view_layout(&self, row: int, col: int)
        requires
            self.wf(),
        ensures
            !(0 <= row < self.n_rows() && self.is_local(row)) ==> !self@.contains_key((row, col)),
            0 <= row < self.n_rows() && self.is_local(row) ==> ({
                let r = row / (self.n_pes() as int);
                let s = self.ptr_seq()[r] as int;
                let e = self.ptr_seq()[r + 1] as int;
                &&& 0 <= r < self.local_rows()
                &&& self@.contains_key((row, col)) <==> exists|i: int|
                    s <= i < e && self.col_seq()[i] == col
                &&& forall|i: int|
                    s <= i < e && #[trigger] self.col_seq()[i] == col ==> self@[(row, col)]
                        == self.val_seq()[i]
            }),
    {
        if 0 <= row < self.n_rows() && self.is_local(row) {
            let r = row / (self.pes as int);
            lemma_local_row_bound(row, self.rows as int, self.pes as int);
            self.lemma_layout(r);
            let s = self.row_ptrs@[r] as int;
            let e = self.row_ptrs@[r + 1] as int;
            let cols = self.row_cols(r);
            let vals = self.row_vals(r);
            if exists|i: int| s <= i < e && self.col_idxs@[i] == col {
                let i = choose|i: int| s <= i < e && self.col_idxs@[i] == col;
                assert(cols[i - s] == col);
                lemma_lookup_at(cols, vals, i - s);
            }
            if self@.contains_key((row, col)) {
                let k = choose|k: int| 0 <= k < cols.len() && cols[k] == col;
                assert(self.col_idxs@[s + k] == col);
            }
            assert forall|i: int| s <= i < e && #[trigger] self.col_seq()[i] == col implies self@[(row, col)]
                == self.val_seq()[i] by {
                assert(cols[i - s] == col);
                lemma_lookup_at(cols, vals, i - s);
            }
        }
    }

    /// Rows in the matrix.
    pub fn rows(&self) -> (r: usize)
        ensures
            r == self.n_rows(),
    {
        self.rows
    }

    /// Columns in the matrix.
    pub fn cols(&self) -> (r: usize)
        ensures
            r == self.n_cols(),
    {
        self.cols
    }

    /// Elements the calling PE can store without growing its buffers.
    pub fn capacity(&self) -> (r: usize)
        requires
            self.wf(),
        ensures
            r == self.cap(),
    {
        self.xs.capacity()
    }

    /// The calling PE's row pointers, to publish on the symmetric heap.
    pub fn row_ptrs(&self) -> (r: &[usize])
        ensures
            r@ == self.ptr_seq(),
    {
        self.row_ptrs.as_slice()
    }

    /// The calling PE's element columns, to publish on the symmetric heap.
    pub fn col_idxs(&self) -> (r: &[usize])
        requires
            self.wf(),
        ensures
            r@ == self.col_seq(),
    {
        self.col_idxs.span(Bounds { start: Bound::Unbounded, end: Bound::Unbounded })
    }

    /// The calling PE's element values, to publish on the symmetric heap.
    pub fn values(&self) -> (r: &[T])
        requires
            self.wf(),
        ensures
            r@ == self.val_seq(),
    {
        self.xs.span(Bounds { start: Bound::Unbounded, end: Bound::Unbounded })
    }

    /// The number of elements stored on the calling PE; the matrix's
    /// number of nonzeros is the sum of this over all PEs.
    pub fn local_nnz(&self) -> (r: usize)
        requires
            self.wf(),
        ensures
            r == self.stored(),
    {
        self.xs.len()
    }

    /// Whether row `row` is stored on the calling PE.
    pub fn row_on_this_pe(&self, row: usize) -> (r: bool)
        requires
            self.wf(),
        ensures
            r == self.is_local(row as int),
    {
        row % self.pes == self.mpe
    }
}


impl<'ctx, T> CrsMatrix<'ctx, T> {
    /// An empty `rows` x `cols` matrix whose rows are spread over the PEs
    /// of `ctx`; each PE's buffers start with room for `rows * 2`
    /// elements.
    ///
    /// This is a collective operation.
    pub fn new(rows: usize, cols: usize, ctx: &'ctx ShmemCtx, shm: &'ctx Shmallocator<'ctx>) -> (m: Self)
        requires
            rows * 2 <= usize::MAX,
        ensures
            m.wf(),
            m@ == Map::<(int, int), T>::empty(),
            m.n_rows() == rows,
            m.n_cols() == cols,
            m.n_pes() == ctx.world_size(),
            m.this_pe() == ctx.pe_id(),
            m.stored() == 0,
            m.cap() == rows * 2,
            m.ptr_seq() == Seq::new((rows_per_pe_spec(rows as int, ctx.world_size() as int) + 1) as nat, |i: int| 0usize),
            m.col_seq() == Seq::<usize>::empty(),
            m.val_seq() == Seq::<T>::empty(),
    {
        let pes = ctx.n_pes();
        let mpe = ctx.my_pe().raw();
        let rows_per_pe = rows / pes + if rows % pes == 0 {
            0
        } else {
            1
        };
        assert(rows / pes <= rows) by {
            vstd::arithmetic::div_mod::lemma_div_is_ordered_by_denominator(rows as int, 1, pes as int);
        }
        let initial_capacity = rows * 2;
        let mut row_ptrs: Vec<usize> = Vec::new();
        let mut i: usize = 0;
        while i <= rows_per_pe
            invariant
                rows_per_pe < usize::MAX,
                i <= rows_per_pe + 1,
                row_ptrs@.len() == i,
                forall|j: int| 0 <= j < i ==> row_ptrs@[j] == 0,
            decreases rows_per_pe + 1 - i,
        {
            row_ptrs.push(0);
            i = i + 1;
        }
        let m = CrsMatrix {
            rows,
            cols,
            pes,
            rows_per_pe,
            mpe,
            ctx,
            shm,
            col_idxs: Shvec::new(ctx, shm, initial_capacity),
            xs: Shvec::new(ctx, shm, initial_capacity),
            row_ptrs,
        };
        assert forall|r: int| 0 <= r < m.rows_per_pe implies #[trigger] m.row_cols(r) =~= Seq::<usize>::empty() by {}
        assert forall|k: (int, int)| !(m.entry(k.0, k.1) is Some) by {
            if 0 <= k.0 < m.rows && m.is_local(k.0) {
                lemma_local_row_bound(k.0, rows as int, pes as int);
                assert(m.row_cols(k.0 / (pes as int)) =~= Seq::<usize>::empty());
            }
        }
        assert(m@ =~= Map::<(int, int), T>::empty());
        assert(m.row_ptrs@ =~= Seq::new((rows_per_pe + 1) as nat, |i: int| 0usize));
        m
    }
}

/// Moves every row start after local row `r` one element further on.
fn bump_after(ptrs: &mut Vec<usize>, r: usize)
    requires
        r < old(ptrs)@.len(),
        forall|k: int| 0 <= k < old(ptrs)@.len() ==> old(ptrs)@[k] < usize::MAX,
    ensures
        final(ptrs)@ == bumped(old(ptrs)@, r as int),
{
    let ghost orig = ptrs@;
    let n = ptrs.len();
    let mut k = r + 1;
    while k < ptrs.len()
        invariant
            r < k <= ptrs@.len(),
            ptrs@.len() == orig.len(),
            forall|j: int| 0 <= j < orig.len() ==> orig[j] < usize::MAX,
            forall|j: int| 0 <= j < k ==> ptrs@[j] == bumped(orig, r as int)[j],
            forall|j: int| k <= j < ptrs@.len() ==> ptrs@[j] == orig[j],
        decreases ptrs@.len() - k,
    {
        let v = ptrs[k];
        assert(v == orig[k as int]);
        assert(v < usize::MAX);
        ptrs.set(k, v + 1);
        k = k + 1;
    }
    assert(ptrs@ =~= bumped(orig, r as int));
}

impl<'ctx, T> CrsMatrix<'ctx, T> {
    /// If only local row `row / n_pes` changed, and in it only the value of
    /// column `col` (which became `v`), the matrix changed by storing `v`
    /// at `(row, col)`.
    proof fn lemma_view_change(old_m: Self, new_m: Self, row: int, col: int, v: T)
        requires
            old_m.wf(),
            new_m.rows == old_m.rows,
            new_m.pes == old_m.pes,
            new_m.mpe == old_m.mpe,
            new_m.rows_per_pe == old_m.rows_per_pe,
            0 <= row < old_m.rows,
            old_m.is_local(row),
            lookup(new_m.row_cols(row / (old_m.pes as int)), new_m.row_vals(row / (old_m.pes as int)), col)
                == Some(v),
            forall|c: int|
                c != col ==> #[trigger] lookup(
                    new_m.row_cols(row / (old_m.pes as int)),
                    new_m.row_vals(row / (old_m.pes as int)),
                    c,
                ) == lookup(
                    old_m.row_cols(row / (old_m.pes as int)),
                    old_m.row_vals(row / (old_m.pes as int)),
                    c,
                ),
            forall|r2: int|
                0 <= r2 < old_m.rows_per_pe && r2 != row / (old_m.pes as int) ==> new_m.row_cols(r2)
                    == old_m.row_cols(r2) && new_m.row_vals(r2) == old_m.row_vals(r2),
        ensures
            new_m@ == old_m@.insert((row, col), v),
    {
        let pes = old_m.pes as int;
        assert forall|k: (int, int)|
            new_m.entry(k.0, k.1) == (if k == (row, col) {
                Some(v)
            } else {
                old_m.entry(k.0, k.1)
            }) by {
            if 0 <= k.0 < old_m.rows && old_m.is_local(k.0) {
                lemma_local_row_bound(k.0, old_m.rows as int, pes);
                if k.0 / pes == row / pes {
                    lemma_same_row(k.0, row, pes);
                } else {
                    assert(new_m.row_cols(k.0 / pes) == old_m.row_cols(k.0 / pes));
                    assert(k.0 != row);
                }
            }
        }
        assert(new_m@ =~= old_m@.insert((row, col), v));
    }

    /// A matrix whose row pointers and columns are those of a matrix with
    /// strictly sorted rows has strictly sorted rows too; when its values
    /// are the same as well, it holds the same elements.
    proof fn lemma_same_layout(a: Self, b: Self)
        requires
            b.rows == a.rows,
            b.pes == a.pes,
            b.mpe == a.mpe,
            b.rows_per_pe == a.rows_per_pe,
            b.row_ptrs@ == a.row_ptrs@,
            b.col_idxs@ == a.col_idxs@,
            forall|r: int| 0 <= r < a.rows_per_pe ==> strictly_sorted(#[trigger] a.row_cols(r)),
        ensures
            forall|r: int| 0 <= r < b.rows_per_pe ==> strictly_sorted(#[trigger] b.row_cols(r)),
            b.xs@ == a.xs@ ==> b@ == a@,
    {
        assert forall|r: int| 0 <= r < b.rows_per_pe implies strictly_sorted(#[trigger] b.row_cols(r)) by {
            assert(a.row_cols(r) == b.row_cols(r));
        }
        if b.xs@ == a.xs@ {
            assert forall|k: (int, int)| b.entry(k.0, k.1) == a.entry(k.0, k.1) by {
                if 0 <= k.0 < b.rows && b.is_local(k.0) {
                    let r2 = k.0 / (b.pes as int);
                    assert(b.row_cols(r2) == a.row_cols(r2));
                    assert(b.row_vals(r2) == a.row_vals(r2));
                }
            }
            assert(b@ =~= a@);
        }
    }

    /// Stores `value` at `(row, col)`, replacing what was stored there.
    ///
    /// Fails with `RowOnDifferentPe` (changing nothing) when the row is
    /// stored on another PE, and with `WouldRealloc` (changing nothing)
    /// when the element is new and the calling PE's buffers are full.
    /// The caller must rule out the case where the row is out of bounds.
    pub fn put(&mut self, row: usize, col: usize, value: T) -> (r: Result<
        (),
        Either<RowOnDifferentPe, WouldRealloc>,
    >)
        requires
            old(self).wf(),
            row < old(self).n_rows(),
        ensures
            final(self).wf(),
            final(self).n_rows() == old(self).n_rows(),
            final(self).n_cols() == old(self).n_cols(),
            final(self).n_pes() == old(self).n_pes(),
            final(self).this_pe() == old(self).this_pe(),
            final(self).cap() == old(self).cap(),
            (r matches Err(Either::L(_))) <==> !old(self).is_local(row as int),
            (r matches Err(Either::R(_))) <==> old(self).is_local(row as int) && !old(self)@.contains_key(
                (row as int, col as int),
            ) && old(self).stored() >= old(self).cap(),
            r is Err ==> final(self)@ == old(self)@ && final(self).stored() == old(self).stored(),
            r is Ok ==> final(self)@ == old(self)@.insert((row as int, col as int), value),
            r is Ok ==> final(self).stored() == old(self).stored() + if old(self)@.contains_key(
                (row as int, col as int),
            ) {
                0int
            } else {
                1int
            },
    {
        let (row_idx, target_pe) = self.global_row_to_pe_row(row);
        if !target_pe.eq_raw(self.mpe) {
            return Err(Either::L(RowOnDifferentPe));
        }
        let ghost pes = self.pes as int;
        let ghost ri = row_idx as int;
        proof {
            lemma_local_row_bound(row as int, self.rows as int, pes);
            assert(self.row_ptrs@[ri] <= self.row_ptrs@[ri + 1]);
            assert(self.row_ptrs@[ri + 1] <= self.row_ptrs@[self.rows_per_pe as int]);
        }
        let start = self.row_ptrs[row_idx];
        let end = self.row_ptrs[row_idx + 1];
        let ghost old_m = *self;
        let ghost cols_r = self.row_cols(ri);
        let ghost vals_r = self.row_vals(ri);
        proof {
            assert(strictly_sorted(cols_r));
            assert(sorted(cols_r));
        }
        let found = binary_search(
            self.col_idxs.span(Bounds { start: Bound::Included(start), end: Bound::Excluded(end) }),
            col,
        );
        match found {
            Ok(at) => {
                proof {
                    lemma_lookup_at(cols_r, vals_r, at as int);
                    lemma_rows_after_update(self.xs@, self.row_ptrs@, ri, start + at, value);
                    lemma_lookup_update(cols_r, vals_r, at as int, value);
                }
                self.xs.replace(start + at, value);
                proof {
                    Self::lemma_same_layout(old_m, *self);
                    assert(self.row_vals(ri) == vals_r.update(at as int, value));
                    Self::lemma_view_change(old_m, *self, row as int, col as int, value);
                }
            },
            Err(at) => {
                proof {
                    assert forall|k: int| 0 <= k < cols_r.len() implies cols_r[k] != col by {
                        if k < at {
                        } else {
                        }
                    }
                    assert(!old_m@.contains_key((row as int, col as int)));
                }
                match self.xs.insert(start + at, value) {
                    Ok(()) => {},
                    Err(e) => {
                        proof {
                            Self::lemma_same_layout(old_m, *self);
                        }
                        return Err(Either::R(e));
                    },
                }
                assert(self.col_idxs@ == old_m.col_idxs@);
                assert(old_m.col_idxs@.len() == old_m.xs@.len());
                assert(self.col_idxs.cap() == old_m.col_idxs.cap());
                assert(self.col_idxs@.len() < self.col_idxs.cap());
                match self.col_idxs.insert(start + at, col) {
                    Ok(()) => {},
                    Err(e) => {
                        return Err(Either::R(e));
                    },
                }
                proof {
                    assert(self.row_ptrs@ == old_m.row_ptrs@);
                    assert(old_m.row_ptrs@[old_m.rows_per_pe as int] == old_m.col_idxs@.len());
                    assert(old_m.col_idxs@.len() < self.col_idxs@.len());
                    assert forall|k: int| 0 <= k < self.row_ptrs@.len() implies self.row_ptrs@[k] < usize::MAX by {
                        assert(old_m.row_ptrs@[k] <= old_m.row_ptrs@[old_m.rows_per_pe as int]);
                    }
                }
                bump_after(&mut self.row_ptrs, row_idx);
                proof {
                    let p = start + at;
                    let optr = old_m.row_ptrs@;
                    lemma_bumped_ok(optr, old_m.col_idxs@.len() as int, ri);
                    lemma_row_after_insert(old_m.col_idxs@, optr, ri, p, col);
                    lemma_row_after_insert(old_m.xs@, optr, ri, p, value);
                    lemma_lookup_insert(cols_r, vals_r, at as int, col, value);
                    assert forall|r2: int|
                        0 <= r2 < self.rows_per_pe && r2 != ri implies self.row_cols(r2) == old_m.row_cols(r2)
                        && self.row_vals(r2) == old_m.row_vals(r2) by {
                        lemma_other_row_after_insert(old_m.col_idxs@, optr, ri, p, col, r2);
                        lemma_other_row_after_insert(old_m.xs@, optr, ri, p, value, r2);
                    }
                    assert forall|r2: int| 0 <= r2 < self.rows_per_pe implies strictly_sorted(
                        #[trigger] self.row_cols(r2),
                    ) by {
                        if r2 != ri {
                            assert(old_m.row_cols(r2) == self.row_cols(r2));
                        }
                    }
                    Self::lemma_view_change(old_m, *self, row as int, col as int, value);
                }
            },
        }
        Ok(())
    }
}

/// The number of elements of `xs` that, stored in turn into `m`, land on
/// a position that holds nothing yet: the number of distinct positions
/// of `xs` that `m` does not hold.
pub open spec fn new_positions<T>(m: Map<(int, int), T>, xs: Seq<(usize, usize, T)>) -> nat
    decreases xs.len(),
{
    if xs.len() == 0 {
        0
    } else {
        new_positions(m, xs.drop_last()) + if apply_entries(m, xs.drop_last()).contains_key(
            (xs.last().0 as int, xs.last().1 as int),
        ) {
            0nat
        } else {
            1nat
        }
    }
}

/// The matrix elements after storing each `(row, col, value)` of `xs` in
/// turn: a later element overrides an earlier one at the same place.
pub open spec fn apply_entries<T>(m: Map<(int, int), T>, xs: Seq<(usize, usize, T)>) -> Map<
    (int, int),
    T,
>
    decreases xs.len(),
{
    if xs.len() == 0 {
        m
    } else {
        apply_entries(m, xs.drop_last()).insert(
            (xs.last().0 as int, xs.last().1 as int),
            xs.last().2,
        )
    }
}

/// Whether an element `(row, col, value)` belongs to PE `p` when the rows
/// are spread over `pes` PEs.
pub open spec fn owned_by<T>(pes: int, p: int) -> spec_fn((usize, usize, T)) -> bool {
    |e: (usize, usize, T)| (e.0 as int) % pes == p
}

impl<'ctx, T: Copy> CrsMatrix<'ctx, T> {
    /// The element at `(row, col)` of a row stored on the calling PE, or
    /// `None` when nothing is stored there.
    ///
    /// The row must be in bounds and stored on the calling PE; for a row
    /// stored on another PE, `remote_value_read` plans the read of the
    /// value from the row's columns fetched from there.
    pub fn get_local(&self, row: usize, col: usize) -> (r: Option<T>)
        requires
            self.wf(),
            row < self.n_rows(),
            self.is_local(row as int),
        ensures
            r == (if self@.contains_key((row as int, col as int)) {
                Some(self@[(row as int, col as int)])
            } else {
                None::<T>
            }),
    {
        let (row_idx, _target_pe) = self.global_row_to_pe_row(row);
        let ghost ri = row_idx as int;
        proof {
            lemma_local_row_bound(row as int, self.rows as int, self.pes as int);
            assert(self.row_ptrs@[ri] <= self.row_ptrs@[ri + 1]);
            assert(self.row_ptrs@[ri + 1] <= self.row_ptrs@[self.rows_per_pe as int]);
            assert(strictly_sorted(self.row_cols(ri)));
            assert(sorted(self.row_cols(ri)));
        }
        let start = self.row_ptrs[row_idx];
        let end = self.row_ptrs[row_idx + 1];
        let found = binary_search(
            self.col_idxs.span(Bounds { start: Bound::Included(start), end: Bound::Excluded(end) }),
            col,
        );
        match found {
            Ok(lidx) => {
                proof {
                    lemma_lookup_at(self.row_cols(ri), self.row_vals(ri), lidx as int);
                }
                Some(self.xs.index_unwrap(start + lidx))
            },
            Err(at) => {
                proof {
                    assert forall|k: int| 0 <= k < self.row_cols(ri).len() implies self.row_cols(ri)[k]
                        != col by {
                        if k < at {
                        } else {
                        }
                    }
                }
                None
            },
        }
    }

    /// Grows the calling PE's buffers to hold `new_capacity` elements if
    /// they hold fewer; the elements are kept.
    pub fn grow_to(&mut self, new_capacity: usize)
        requires
            old(self).wf(),
        ensures
            final(self).wf(),
            final(self)@ == old(self)@,
            final(self).stored() == old(self).stored(),
            final(self).n_rows() == old(self).n_rows(),
            final(self).n_cols() == old(self).n_cols(),
            final(self).n_pes() == old(self).n_pes(),
            final(self).this_pe() == old(self).this_pe(),
            final(self).cap() == if new_capacity > old(self).cap() {
                new_capacity as nat
            } else {
                old(self).cap()
            },
    {
        self.xs.grow_to(new_capacity);
        self.col_idxs.grow_to(new_capacity);
        proof {
            Self::lemma_same_layout(*old(self), *self);
        }
    }

    /// Stores every `(row, col, value)` of `xs`, in order, after growing
    /// the calling PE's buffers by `xs.len()` elements.
    ///
    /// Fails with `RowOnDifferentPe`, changing nothing, when a row of `xs`
    /// is stored on another PE. The caller must rule out the case where a row is out
    /// of bounds or the grown capacity does not fit in a `usize`.
    pub fn put_from_coo_all(&mut self, xs: &[(usize, usize, T)]) -> (r: Result<(), RowOnDifferentPe>)
        requires
            old(self).wf(),
            forall|i: int| 0 <= i < xs@.len() ==> xs@[i].0 < old(self).n_rows(),
            xs@.len() + old(self).cap() <= usize::MAX,
        ensures
            final(self).wf(),
            final(self).n_rows() == old(self).n_rows(),
            final(self).n_cols() == old(self).n_cols(),
            final(self).n_pes() == old(self).n_pes(),
            final(self).this_pe() == old(self).this_pe(),
            r is Err <==> exists|i: int| 0 <= i < xs@.len() && !old(self).is_local(xs@[i].0 as int),
            r is Err ==> final(self)@ == old(self)@ && final(self).cap() == old(self).cap()
                && final(self).stored() == old(self).stored(),
            r is Ok ==> final(self)@ == apply_entries(old(self)@, xs@) && final(self).cap() == xs@.len()
                + old(self).cap(),
            r is Ok ==> final(self).stored() == old(self).stored() + new_positions(old(self)@, xs@),
    {
        let mut i: usize = 0;
        while i < xs.len()
            invariant
                self.wf(),
                i <= xs@.len(),
                forall|j: int| 0 <= j < xs@.len() ==> xs@[j].0 < self.n_rows(),
                forall|j: int| 0 <= j < i ==> self.is_local(xs@[j].0 as int),
            decreases xs@.len() - i,
        {
            let (_row_idx, pe) = self.global_row_to_pe_row(xs[i].0);
            if !pe.eq_raw(self.mpe) {
                return Err(RowOnDifferentPe);
            }
            i = i + 1;
        }
        let min_cap = xs.len() + self.xs.capacity();
        self.xs.grow_to(min_cap);
        self.col_idxs.grow_to(min_cap);
        let ghost old_stored = self.xs@.len();
        let ghost base = old(self)@;
        proof {
            Self::lemma_same_layout(*old(self), *self);
            assert(xs@.subrange(0, 0) =~= Seq::<(usize, usize, T)>::empty());
        }
        let mut i: usize = 0;
        while i < xs.len()
            invariant
                self.wf(),
                i <= xs@.len(),
                forall|j: int| 0 <= j < xs@.len() ==> xs@[j].0 < self.n_rows(),
                forall|j: int| 0 <= j < xs@.len() ==> self.is_local(xs@[j].0 as int),
                self.cap() == min_cap,
                old_stored + xs@.len() <= min_cap,
                self.stored() <= old_stored + i,
                self.stored() == old_stored + new_positions(base, xs@.subrange(0, i as int)),
                old_stored == old(self).stored(),
                self.n_rows() == old(self).n_rows(),
                self.n_cols() == old(self).n_cols(),
                self.n_pes() == old(self).n_pes(),
                self.this_pe() == old(self).this_pe(),
                self@ == apply_entries(base, xs@.subrange(0, i as int)),
            decreases xs@.len() - i,
        {
            let (row, col, value) = xs[i];
            let _ = self.put(row, col, value);
            proof {
                assert(xs@.subrange(0, i + 1).drop_last() =~= xs@.subrange(0, i as int));
            }
            i = i + 1;
        }
        proof {
            assert(xs@.subrange(0, xs@.len() as int) =~= xs@);
        }
        Ok(())
    }

    /// Splits `xs` by the PE that stores each element's row: entry `p` of
    /// the result holds, in their order in `xs`, the elements whose row
    /// PE `p` stores.
    ///
    /// The caller must rule out the case where a row is out of bounds.
    pub fn route_to_pes(&self, xs: &[(usize, usize, T)]) -> (r: Vec<Vec<(usize, usize, T)>>)
        requires
            self.wf(),
            forall|i: int| 0 <= i < xs@.len() ==> xs@[i].0 < self.n_rows(),
        ensures
            r@.len() == self.n_pes(),
            forall|p: int|
                0 <= p < self.n_pes() ==> #[trigger] r@[p]@ == xs@.filter(
                    owned_by::<T>(self.n_pes() as int, p),
                ),
    {
        let pes = self.pes;
        let mut outboxes: Vec<Vec<(usize, usize, T)>> = Vec::new();
        let mut p: usize = 0;
        while p < pes
            invariant
                p <= pes,
                outboxes@.len() == p,
                forall|q: int| 0 <= q < p ==> (#[trigger] outboxes@[q])@ == Seq::<(usize, usize, T)>::empty(),
            decreases pes - p,
        {
            outboxes.push(Vec::new());
            p = p + 1;
        }
        proof {
            assert forall|q: int| 0 <= q < pes implies (#[trigger] outboxes@[q])@ == xs@.subrange(0, 0).filter(
                owned_by::<T>(pes as int, q),
            ) by {
                reveal(Seq::filter);
                assert(xs@.subrange(0, 0).len() == 0);
            }
        }
        let mut i: usize = 0;
        while i < xs.len()
            invariant
                self.wf(),
                pes == self.pes,
                i <= xs@.len(),
                forall|j: int| 0 <= j < xs@.len() ==> xs@[j].0 < self.n_rows(),
                outboxes@.len() == pes,
                forall|q: int|
                    0 <= q < pes ==> (#[trigger] outboxes@[q])@ == xs@.subrange(0, i as int).filter(
                        owned_by::<T>(pes as int, q),
                    ),
            decreases xs@.len() - i,
        {
            let e = xs[i];
            let (_row_idx, remote_pe) = self.global_row_to_pe_row(e.0);
            let target = remote_pe.raw();
            let mut inner = Vec::new();
            std::mem::swap(&mut inner, &mut outboxes[target]);
            inner.push(e);
            let ghost before = outboxes@;
            outboxes.set(target, inner);
            proof {
                let pre = xs@.subrange(0, i as int);
                assert(xs@.subrange(0, i + 1) =~= pre.push(e));
                assert forall|q: int| 0 <= q < pes implies (#[trigger] outboxes@[q])@ == xs@.subrange(
                    0,
                    i + 1,
                ).filter(owned_by::<T>(pes as int, q)) by {
                    pre.lemma_filter_push(e, owned_by::<T>(pes as int, q));
                }
            }
            i = i + 1;
        }
        proof {
            assert(xs@.subrange(0, xs@.len() as int) =~= xs@);
        }
        outboxes
    }
}

/// The key that orders and identifies incoming elements:
/// `row * width + col`, with the matrix's number of rows as `width`.
/// Positions whose columns are below `width` have distinct keys
/// (`law_coo_key_distinct`); in a matrix with more columns than rows two
/// positions can share a key.
pub open spec fn coo_key_spec<T>(width: int, e: (usize, usize, T)) -> int {
    e.0 * width + e.1
}

/// `row * width + col`.
pub fn coo_key(width: usize, row: usize, col: usize) -> (r: usize)
    requires
        row * width + col <= usize::MAX,
    ensures
        r == row * width + col,
{
    row * width + col
}

/// Positions whose columns are below `width` have distinct keys: the key
/// identifies the position.
pub proof fn law_coo_key_distinct<T>(width: int, a: (usize, usize, T), b: (usize, usize, T))
    requires
        a.1 < width,
        b.1 < width,
        (a.0, a.1) != (b.0, b.1),
    ensures
        coo_key_spec(width, a) != coo_key_spec(width, b),
{
    if a.0 < b.0 {
        assert(a.0 * width + width <= b.0 * width) by (nonlinear_arith)
            requires
                a.0 < b.0,
                width > 0,
        ;
    } else if b.0 < a.0 {
        assert(b.0 * width + width <= a.0 * width) by (nonlinear_arith)
            requires
                b.0 < a.0,
                width > 0,
        ;
    }
}

/// Sorts `v` by `coo_key`, through `slice::sort_unstable_by_key`.
///
/// The standard library documents the result as the same elements,
/// ordered by the key; which of several elements with equal keys comes
/// first is left open, and so is it here.
#[verifier::external_body]
fn sort_by_coo_key<T: Copy>(v: &mut Vec<(usize, usize, T)>, width: usize)
    requires
        forall|i: int| 0 <= i < old(v)@.len() ==> coo_key_spec(width as int, old(v)@[i]) <= usize::MAX,
    ensures
        final(v)@.to_multiset() == old(v)@.to_multiset(),
        forall|i: int, j: int|
            0 <= i <= j < final(v)@.len() ==> coo_key_spec(width as int, final(v)@[i]) <= coo_key_spec(
                width as int,
                final(v)@[j],
            ),
{
    v.sort_unstable_by_key(|e| coo_key(width, e.0, e.1));
}

impl<'ctx, T: Copy> CrsMatrix<'ctx, T> {
    /// Orders the elements a PE received by `row * rows + col` and keeps
    /// one element for each key.
    ///
    /// The result's keys strictly increase; each of its elements is one
    /// of `incoming`, and each key of `incoming` is the key of one of its
    /// elements. Which of several elements with one key is kept is left
    /// open, as the unstable sort leaves it. Every key must fit in a
    /// `usize`.
    #[verifier::spinoff_prover]
    #[verifier::rlimit(40)]
    pub fn prepare_incoming(&self, incoming: Vec<(usize, usize, T)>) -> (r: Vec<(usize, usize, T)>)
        requires
            forall|i: int|
                0 <= i < incoming@.len() ==> coo_key_spec(self.n_rows() as int, incoming@[i])
                    <= usize::MAX,
        ensures
            forall|i: int, j: int|
                0 <= i < j < r@.len() ==> coo_key_spec(self.n_rows() as int, r@[i]) < coo_key_spec(
                    self.n_rows() as int,
                    r@[j],
                ),
            forall|i: int| 0 <= i < r@.len() ==> incoming@.contains(#[trigger] r@[i]),
            forall|i: int|
                #![trigger incoming@[i]]
                0 <= i < incoming@.len() ==> exists|j: int|
                    0 <= j < r@.len() && coo_key_spec(self.n_rows() as int, #[trigger] r@[j])
                        == coo_key_spec(self.n_rows() as int, incoming@[i]),
    {
        broadcast use vstd::seq_lib::group_to_multiset_ensures;

        let width = self.rows;
        let mut v = incoming;
        sort_by_coo_key(&mut v, width);
        assert forall|x: (usize, usize, T)| v@.contains(x) implies incoming@.contains(x) by {
            assert(v@.to_multiset().count(x) > 0);
        }
        assert forall|x: (usize, usize, T)| incoming@.contains(x) implies v@.contains(x) by {
            assert(incoming@.to_multiset().count(x) > 0);
        }
        assert forall|j: int| 0 <= j < v@.len() implies coo_key_spec(width as int, v@[j]) <= usize::MAX by {
            assert(v@.contains(v@[j]));
            assert(incoming@.contains(v@[j]));
            let a = choose|a: int| 0 <= a < incoming@.len() && incoming@[a] == v@[j];
        }
        let mut out: Vec<(usize, usize, T)> = Vec::new();
        let mut i: usize = 0;
        while i < v.len()
            invariant
                width == self.n_rows(),
                i <= v@.len(),
                forall|j: int| 0 <= j < v@.len() ==> coo_key_spec(width as int, v@[j]) <= usize::MAX,
                forall|a: int, b: int|
                    0 <= a <= b < v@.len() ==> coo_key_spec(width as int, v@[a]) <= coo_key_spec(
                        width as int,
                        v@[b],
                    ),
                forall|a: int, b: int|
                    0 <= a < b < out@.len() ==> coo_key_spec(width as int, out@[a]) < coo_key_spec(
                        width as int,
                        out@[b],
                    ),
                forall|a: int| 0 <= a < out@.len() ==> v@.contains(#[trigger] out@[a]),
                i > 0 ==> out@.len() > 0 && coo_key_spec(width as int, out@.last()) == coo_key_spec(
                    width as int,
                    v@[i - 1],
                ),
                i == 0 ==> out@.len() == 0,
                forall|a: int|
                    #![trigger v@[a]]
                    0 <= a < i ==> exists|b: int|
                        0 <= b < out@.len() && coo_key_spec(width as int, #[trigger] out@[b])
                            == coo_key_spec(width as int, v@[a]),
            decreases v@.len() - i,
        {
            let e = v[i];
            let k = coo_key(width, e.0, e.1);
            let keep = if out.len() == 0 {
                true
            } else {
                let last = out[out.len() - 1];
                coo_key(width, last.0, last.1) != k
            };
            if keep {
                proof {
                    if i > 0 {
                        assert(coo_key_spec(width as int, v@[i - 1]) <= coo_key_spec(width as int, v@[i as int]));
                    }
                }
                let ghost prev = out@;
                out.push(e);
                proof {
                    assert(out@[out@.len() - 1] == e);
                    assert forall|a: int| #![trigger v@[a]] 0 <= a <= i implies exists|b: int|
                        0 <= b < out@.len() && coo_key_spec(width as int, #[trigger] out@[b])
                            == coo_key_spec(width as int, v@[a]) by {
                        if a < i {
                            let b = choose|b: int|
                                0 <= b < prev.len() && coo_key_spec(width as int, #[trigger] prev[b])
                                    == coo_key_spec(width as int, v@[a]);
                            assert(out@[b] == prev[b]);
                        } else {
                            assert(coo_key_spec(width as int, out@[out@.len() - 1]) == coo_key_spec(width as int, v@[a]));
                        }
                    }
                }
            } else {
                proof {
                    assert forall|a: int| #![trigger v@[a]] 0 <= a <= i implies exists|b: int|
                        0 <= b < out@.len() && coo_key_spec(width as int, #[trigger] out@[b])
                            == coo_key_spec(width as int, v@[a]) by {
                        if a == i {
                            assert(coo_key_spec(width as int, out@[out@.len() - 1]) == coo_key_spec(width as int, v@[a]));
                        }
                    }
                }
            }
            i = i + 1;
        }
        assert forall|a: int| #![trigger incoming@[a]] 0 <= a < incoming@.len() implies exists|j: int|
            0 <= j < out@.len() && coo_key_spec(width as int, #[trigger] out@[j]) == coo_key_spec(
                width as int,
                incoming@[a],
            ) by {
            assert(incoming@.contains(incoming@[a]));
            assert(v@.contains(incoming@[a]));
            let b = choose|b: int| 0 <= b < v@.len() && v@[b] == incoming@[a];
            assert(v@[b] == incoming@[a]);
        }
        out
    }
}

/// Storing `v` at `(row, col)` of a matrix and then reading that place
/// gives `v` back, and every other place reads as before: what `put`
/// leaves (its `Ok` case) is what `get_local` then answers.
pub proof fn law_put_then_get<T>(before: CrsMatrix<'_, T>, after: CrsMatrix<'_, T>, row: int, col: int, v: T)
    requires
        after@ == before@.insert((row, col), v),
    ensures
        after@.contains_key((row, col)),
        after@[(row, col)] == v,
        forall|k: (int, int)|
            k != (row, col) ==> (after@.contains_key(k) <==> before@.contains_key(k)),
        forall|k: (int, int)| k != (row, col) && before@.contains_key(k) ==> after@[k] == before@[k],
{
}

/// Storing a list of elements leaves a place that none of them writes as
/// it was.
pub proof fn lemma_apply_untouched<T>(m: Map<(int, int), T>, xs: Seq<(usize, usize, T)>, k: (int, int))
    requires
        forall|j: int| 0 <= j < xs.len() ==> (xs[j].0 as int, xs[j].1 as int) != k,
    ensures
        apply_entries(m, xs).contains_key(k) <==> m.contains_key(k),
        m.contains_key(k) ==> apply_entries(m, xs)[k] == m[k],
    decreases xs.len(),
{
    if xs.len() > 0 {
        let pre = xs.drop_last();
        assert forall|j: int| 0 <= j < pre.len() implies (pre[j].0 as int, pre[j].1 as int) != k by {
            assert(pre[j] == xs[j]);
        }
        lemma_apply_untouched(m, pre, k);
        assert((xs[xs.len() - 1].0 as int, xs[xs.len() - 1].1 as int) != k);
    }
}

/// The positions that elements of `xs` write and that `m` does not hold.
pub open spec fn unheld_positions<T>(m: Map<(int, int), T>, xs: Seq<(usize, usize, T)>) -> Set<(int, int)> {
    Set::new(
        |k: (int, int)|
            (exists|i: int| 0 <= i < xs.len() && (xs[i].0 as int, xs[i].1 as int) == k) && !m.contains_key(k),
    )
}

/// After storing a list of elements, a place is held exactly when it was
/// held before or some element writes it.
pub proof fn lemma_apply_domain<T>(m: Map<(int, int), T>, xs: Seq<(usize, usize, T)>, k: (int, int))
    ensures
        apply_entries(m, xs).contains_key(k) <==> m.contains_key(k) || exists|i: int|
            0 <= i < xs.len() && (xs[i].0 as int, xs[i].1 as int) == k,
    decreases xs.len(),
{
    if xs.len() > 0 {
        let pre = xs.drop_last();
        lemma_apply_domain(m, pre, k);
        if exists|i: int| 0 <= i < pre.len() && (pre[i].0 as int, pre[i].1 as int) == k {
            let i = choose|i: int| 0 <= i < pre.len() && (pre[i].0 as int, pre[i].1 as int) == k;
            assert(xs[i] == pre[i]);
        }
        if exists|i: int| 0 <= i < xs.len() && (xs[i].0 as int, xs[i].1 as int) == k {
            let i = choose|i: int| 0 <= i < xs.len() && (xs[i].0 as int, xs[i].1 as int) == k;
            if i < xs.len() - 1 {
                assert(pre[i] == xs[i]);
            }
        }
    }
}

/// Storing a list of elements in turn adds to the number of elements
/// stored the number of distinct positions it writes that were not held:
/// `new_positions` counts exactly `unheld_positions`.
pub proof fn law_new_positions_distinct<T>(m: Map<(int, int), T>, xs: Seq<(usize, usize, T)>)
    ensures
        unheld_positions(m, xs).finite(),
        new_positions(m, xs) == unheld_positions(m, xs).len(),
    decreases xs.len(),
{
    if xs.len() == 0 {
        assert(unheld_positions(m, xs) =~= Set::<(int, int)>::empty());
    } else {
        let pre = xs.drop_last();
        let e = xs.last();
        let k = (e.0 as int, e.1 as int);
        law_new_positions_distinct(m, pre);
        lemma_apply_domain(m, pre, k);
        let before = unheld_positions(m, pre);
        let after = unheld_positions(m, xs);
        assert forall|q: (int, int)| before.contains(q) implies after.contains(q) by {
            let i = choose|i: int| 0 <= i < pre.len() && (pre[i].0 as int, pre[i].1 as int) == q;
            assert(xs[i] == pre[i]);
        }
        assert forall|q: (int, int)| after.contains(q) && q != k implies before.contains(q) by {
            let i = choose|i: int| 0 <= i < xs.len() && (xs[i].0 as int, xs[i].1 as int) == q;
            if i == xs.len() - 1 {
            } else {
                assert(pre[i] == xs[i]);
            }
        }
        if apply_entries(m, pre).contains_key(k) {
            if !m.contains_key(k) {
                assert(before.contains(k));
            }
            assert(after =~= before);
        } else {
            assert(after.contains(k));
            assert(!before.contains(k));
            assert(after =~= before.insert(k));
        }
    }
}

/// Storing a list of elements leaves at a place the value of the last
/// element written there.
pub proof fn lemma_apply_last<T>(m: Map<(int, int), T>, xs: Seq<(usize, usize, T)>, i: int)
    requires
        0 <= i < xs.len(),
        forall|j: int| i < j < xs.len() ==> (xs[j].0, xs[j].1) != (xs[i].0, xs[i].1),
    ensures
        apply_entries(m, xs).contains_key((xs[i].0 as int, xs[i].1 as int)),
        apply_entries(m, xs)[(xs[i].0 as int, xs[i].1 as int)] == xs[i].2,
    decreases xs.len(),
{
    if i < xs.len() - 1 {
        let pre = xs.drop_last();
        assert(pre[i] == xs[i]);
        assert forall|j: int| i < j < pre.len() implies (pre[j].0, pre[j].1) != (pre[i].0, pre[i].1) by {
            assert(pre[j] == xs[j]);
        }
        lemma_apply_last(m, pre, i);
        let last = xs[xs.len() - 1];
        assert((last.0, last.1) != (xs[i].0, xs[i].1));
        assert((last.0 as int, last.1 as int) != (xs[i].0 as int, xs[i].1 as int));
    }
}

/// In a list of elements stored in turn, the last one written to a place
/// is the one the place holds afterwards; places no element writes keep
/// what they held.
pub proof fn law_last_write_wins<T>(m: Map<(int, int), T>, xs: Seq<(usize, usize, T)>)
    ensures
        forall|i: int|
            #![trigger xs[i]]
            0 <= i < xs.len() && (forall|j: int|
                i < j < xs.len() ==> (xs[j].0, xs[j].1) != (xs[i].0, xs[i].1)) ==> apply_entries(
                m,
                xs,
            ).contains_key((xs[i].0 as int, xs[i].1 as int)) && apply_entries(m, xs)[(
                xs[i].0 as int,
                xs[i].1 as int,
            )] == xs[i].2,
        forall|k: (int, int)|
            (forall|j: int| 0 <= j < xs.len() ==> (xs[j].0 as int, xs[j].1 as int) != k) ==> (
            #[trigger] apply_entries(m, xs).contains_key(k) <==> m.contains_key(k)) && (m.contains_key(
                k,
            ) ==> apply_entries(m, xs)[k] == m[k]),
{
    assert forall|i: int|
        #![trigger xs[i]]
        0 <= i < xs.len() && (forall|j: int|
            i < j < xs.len() ==> (xs[j].0, xs[j].1) != (xs[i].0, xs[i].1)) implies apply_entries(
        m,
        xs,
    ).contains_key((xs[i].0 as int, xs[i].1 as int)) && apply_entries(m, xs)[(
        xs[i].0 as int,
        xs[i].1 as int,
    )] == xs[i].2 by {
        lemma_apply_last(m, xs, i);
    }
    assert forall|k: (int, int)|
        (forall|j: int| 0 <= j < xs.len() ==> (xs[j].0 as int, xs[j].1 as int) != k) implies (
        #[trigger] apply_entries(m, xs).contains_key(k) <==> m.contains_key(k)) && (m.contains_key(k)
            ==> apply_entries(m, xs)[k] == m[k]) by {
        lemma_apply_untouched(m, xs, k);
    }
}

/// Storing two elements at different places gives the same matrix in
/// either order.
pub proof fn law_distinct_puts_commute<T>(m: Map<(int, int), T>, a: (usize, usize, T), b: (usize, usize, T))
    requires
        (a.0, a.1) != (b.0, b.1),
    ensures
        apply_entries(m, seq![a, b]) == apply_entries(m, seq![b, a]),
{
    reveal_with_fuel(apply_entries, 3);
    assert(seq![a, b].drop_last() =~= seq![a]);
    assert(seq![b, a].drop_last() =~= seq![b]);
    assert(seq![a].drop_last() =~= Seq::<(usize, usize, T)>::empty());
    assert(seq![b].drop_last() =~= Seq::<(usize, usize, T)>::empty());
    assert(apply_entries(m, seq![a, b]) =~= apply_entries(m, seq![b, a]));
}

/// Every row has one owner: a row is the local row index times the
/// number of PEs plus the owning PE (`lemma_same_row` gives that the pair
/// `global_row_to_pe_row` returns determines the row).
pub proof fn law_row_owner(row: int, pes: int)
    requires
        row >= 0,
        pes > 0,
    ensures
        row == pes * (row / pes) + row % pes,
        0 <= row % pes < pes,
{
    vstd::arithmetic::div_mod::lemma_fundamental_div_mod(row, pes);
    vstd::arithmetic::div_mod::lemma_mod_pos_bound(row, pes);
}

/// Routing sends every element to the outbox of the PE that stores its
/// row, and an outbox holds only elements that PE stores.
pub proof fn law_route_partition<T>(xs: Seq<(usize, usize, T)>, pes: int, outboxes: Seq<Seq<(usize, usize, T)>>)
    requires
        pes > 0,
        outboxes.len() == pes,
        forall|p: int| 0 <= p < pes ==> #[trigger] outboxes[p] == xs.filter(owned_by::<T>(pes, p)),
    ensures
        forall|i: int|
            0 <= i < xs.len() ==> outboxes[(xs[i].0 as int) % pes].contains(#[trigger] xs[i]),
        forall|p: int, e: (usize, usize, T)|
            0 <= p < pes && #[trigger] outboxes[p].contains(e) ==> (e.0 as int) % pes == p && xs.contains(
                e,
            ),
{
    broadcast use vstd::seq_lib::group_filter_ensures;

    assert forall|i: int| 0 <= i < xs.len() implies outboxes[(xs[i].0 as int) % pes].contains(
        #[trigger] xs[i],
    ) by {
        let p = (xs[i].0 as int) % pes;
        vstd::arithmetic::div_mod::lemma_mod_pos_bound(xs[i].0 as int, pes);
        assert(outboxes[p] == xs.filter(owned_by::<T>(pes, p)));
        xs.lemma_filter_contains_rev(owned_by::<T>(pes, p), xs[i]);
    }
    assert forall|p: int, e: (usize, usize, T)|
        0 <= p < pes && #[trigger] outboxes[p].contains(e) implies (e.0 as int) % pes == p && xs.contains(
        e,
    ) by {
        assert(outboxes[p] == xs.filter(owned_by::<T>(pes, p)));
        let k = choose|k: int| 0 <= k < outboxes[p].len() && outboxes[p][k] == e;
        assert(xs.filter(owned_by::<T>(pes, p))[k] == e);
        assert(owned_by::<T>(pes, p)(e));
        xs.lemma_filter_contains_rev(owned_by::<T>(pes, p), e);
    }
}

} // verus!
