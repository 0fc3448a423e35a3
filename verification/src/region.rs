//! The verified model of a demand-populated region.
//!
//! A `Region` stands for one backing store seen through two mappings: the
//! shadow mapping, writable at once, and the guarded mapping, whose pages
//! become readable only after a resolution action. The model tracks the
//! backing bytes together with two per-page flags: `populated` (the page has
//! backing content — staged bytes or an installed zero page) and `present`
//! (the page is installed in the guarded mapping, so a touch proceeds
//! without faulting).

use vstd::arithmetic::div_mod::lemma_div_is_ordered;
use vstd::arithmetic::div_mod::lemma_div_nonincreasing;
use vstd::arithmetic::div_mod::lemma_fundamental_div_mod;
use vstd::prelude::*;

use crate::errors::AllocationError;
use crate::errors::ResolutionError;
use crate::event::FaultKind;
use crate::PAGE_SIZE;

verus! {

/// The page size as a mathematical integer.
pub open spec fn page_size() -> int {
    PAGE_SIZE as int
}

/// The page that byte `i` belongs to.
pub open spec fn page_of(i: int) -> int {
    i / page_size()
}

/// A region size is valid when it is a positive whole multiple of the page
/// size.
pub open spec fn valid_size(n: int) -> bool {
    0 < n && n % page_size() == 0
}

/// Mathematical view of a region.
pub struct RegionView {
    /// Contents of the backing store, byte by byte.
    pub bytes: Seq<u8>,
    /// Whether each page has backing content yet.
    pub populated: Seq<bool>,
    /// Whether each page is installed in the guarded mapping.
    pub present: Seq<bool>,
}

/// Number of pages of the region.
pub open spec fn page_count(v: RegionView) -> int {
    v.bytes.len() as int / page_size()
}

/// Every byte of page `p` is zero.
pub open spec fn page_zeroed(v: RegionView, p: int) -> bool {
    forall|i: int|
        p * page_size() <= i < (p + 1) * page_size() && 0 <= i < v.bytes.len()
            ==> #[trigger] v.bytes[i] == 0
}

/// Well-formedness of a region view: a valid size, one flag of each kind per
/// page, no page present without backing content, and unpopulated pages
/// all-zero (the backing store starts zero-initialized).
pub open spec fn wf(v: RegionView) -> bool {
    &&& valid_size(v.bytes.len() as int)
    &&& v.populated.len() == page_count(v)
    &&& v.present.len() == page_count(v)
    &&& forall|p: int| 0 <= p < page_count(v) && #[trigger] v.present[p] ==> v.populated[p]
    &&& forall|p: int|
        0 <= p < page_count(v) && !(#[trigger] v.populated[p]) ==> page_zeroed(v, p)
}

/// The view of a freshly created region: all zero, nothing populated or
/// present.
pub open spec fn fresh_view(size: int) -> RegionView {
    RegionView {
        bytes: Seq::new(size as nat, |i: int| 0u8),
        populated: Seq::new((size / page_size()) as nat, |p: int| false),
        present: Seq::new((size / page_size()) as nat, |p: int| false),
    }
}

/// Byte `i` of the guarded mapping can be read without faulting.
pub open spec fn byte_present(v: RegionView, i: int) -> bool {
    v.present[page_of(i)]
}

/// Every byte of `[offset, offset + len)` can be read without faulting.
pub open spec fn range_present(v: RegionView, offset: int, len: int) -> bool {
    forall|i: int| offset <= i < offset + len ==> #[trigger] byte_present(v, i)
}

/// The first byte of `[offset, offset + len)` whose page is not present:
/// the address a touch of the range faults on.
pub open spec fn first_blocked(v: RegionView, offset: int, len: int) -> int
    decreases len,
{
    if len <= 0 {
        offset
    } else if !byte_present(v, offset) {
        offset
    } else {
        first_blocked(v, offset + 1, len - 1)
    }
}

/// The class of the fault a touch of byte `i` raises: minor when the page
/// already has backing content, missing otherwise.
pub open spec fn fault_kind_at(v: RegionView, i: int) -> FaultKind {
    if v.populated[page_of(i)] {
        FaultKind::Minor
    } else {
        FaultKind::Missing
    }
}

/// `[offset, offset + len)` is a non-empty, page-aligned range within the
/// region.
pub open spec fn page_aligned_range(v: RegionView, offset: int, len: int) -> bool {
    &&& 0 < len
    &&& 0 <= offset
    &&& offset % page_size() == 0
    &&& len % page_size() == 0
    &&& offset + len <= v.bytes.len()
}

/// Page `p` lies inside the page-aligned range `[offset, offset + len)`.
pub open spec fn page_in_range(offset: int, len: int, p: int) -> bool {
    offset / page_size() <= p < (offset + len) / page_size()
}

/// A shadow write of `len > 0` bytes at `offset` stages content on page `p`.
pub open spec fn page_touched(offset: int, len: int, p: int) -> bool {
    len > 0 && offset / page_size() <= p <= (offset + len - 1) / page_size()
}

/// The region after a resolution action over `[offset, offset + len)`: the
/// pages of the range become populated and present, the bytes are unchanged.
/// Zero-fill and continue act on the state identically; they differ in when
/// they are allowed.
pub open spec fn resolved(v: RegionView, offset: int, len: int) -> RegionView {
    RegionView {
        bytes: v.bytes,
        populated: Seq::new(
            v.populated.len(),
            |p: int| v.populated[p] || page_in_range(offset, len, p),
        ),
        present: Seq::new(
            v.present.len(),
            |p: int| v.present[p] || page_in_range(offset, len, p),
        ),
    }
}

/// A zero-fill resolution is rejected as invalid when the range is not a
/// page-aligned range of the region, or some page of it already has backing
/// content.
pub open spec fn zero_fill_rejected(v: RegionView, offset: int, len: int) -> bool {
    ||| !page_aligned_range(v, offset, len)
    ||| exists|p: int|
        0 <= p < page_count(v) && page_in_range(offset, len, p) && #[trigger] v.populated[p]
}

/// A continue resolution is rejected as invalid when the range is not a
/// page-aligned range of the region, or some page of it is already present
/// in the guarded mapping.
pub open spec fn continue_rejected(v: RegionView, offset: int, len: int) -> bool {
    ||| !page_aligned_range(v, offset, len)
    ||| exists|p: int|
        0 <= p < page_count(v) && page_in_range(offset, len, p) && #[trigger] v.present[p]
}

/// The region after writing `data` at `offset` through the shadow mapping:
/// the bytes change, every page the write touches gains backing content, and
/// presence in the guarded mapping is unchanged.
pub open spec fn shadow_written(v: RegionView, offset: int, data: Seq<u8>) -> RegionView {
    RegionView {
        bytes: Seq::new(
            v.bytes.len(),
            |i: int|
                if offset <= i < offset + data.len() {
                    data[i - offset]
                } else {
                    v.bytes[i]
                },
        ),
        populated: Seq::new(
            v.populated.len(),
            |p: int| v.populated[p] || page_touched(offset, data.len() as int, p),
        ),
        present: v.present,
    }
}

/// Byte `x` lies within the bounds of its own page.
pub proof fn lemma_page_split(x: int)
    requires
        0 <= x,
    ensures
        0 <= page_of(x),
        page_size() * page_of(x) <= x < page_size() * (page_of(x) + 1),
{
    lemma_fundamental_div_mod(x, page_size());
}

/// The page of a byte within page `p`'s bounds is `p`.
pub proof fn lemma_page_of_bounds(x: int, p: int)
    requires
        page_size() * p <= x < page_size() * (p + 1),
    ensures
        page_of(x) == p,
{
    lemma_fundamental_div_mod(x, page_size());
    assert(page_of(x) == p) by (nonlinear_arith)
        requires
            page_size() * p <= x < page_size() * (p + 1),
            x == page_size() * (x / page_size()) + x % page_size(),
            0 <= x % page_size() < page_size(),
            page_of(x) == x / page_size(),
    ;
}

/// An aligned positive bound has one page more than its last byte.
pub proof fn lemma_aligned_end(m: int)
    requires
        0 < m,
        m % page_size() == 0,
    ensures
        (m - 1) / page_size() == m / page_size() - 1,
{
    lemma_fundamental_div_mod(m, page_size());
    lemma_fundamental_div_mod(m - 1, page_size());
    assert((m - 1) / page_size() == m / page_size() - 1) by (nonlinear_arith)
        requires
            0 < m,
            m == page_size() * (m / page_size()) + m % page_size(),
            m % page_size() == 0,
            (m - 1) == page_size() * ((m - 1) / page_size()) + (m - 1) % page_size(),
            0 <= (m - 1) % page_size() < page_size(),
    ;
}

/// The sum of two aligned quantities is aligned.
pub proof fn lemma_aligned_sum(a: int, l: int)
    requires
        0 <= a,
        0 <= l,
        a % page_size() == 0,
        l % page_size() == 0,
    ensures
        (a + l) % page_size() == 0,
{
    lemma_fundamental_div_mod(a, page_size());
    lemma_fundamental_div_mod(l, page_size());
    lemma_fundamental_div_mod(a + l, page_size());
    assert((a + l) % page_size() == 0) by (nonlinear_arith)
        requires
            a == page_size() * (a / page_size()),
            l == page_size() * (l / page_size()),
            a + l == page_size() * ((a + l) / page_size()) + (a + l) % page_size(),
            0 <= (a + l) % page_size() < page_size(),
    ;
}

/// Dividing an aligned offset plus a length splits into a sum of quotients.
pub proof fn lemma_aligned_split(a: int, l: int)
    requires
        0 <= a,
        0 <= l,
        a % page_size() == 0,
    ensures
        (a + l) / page_size() == a / page_size() + l / page_size(),
{
    lemma_fundamental_div_mod(a, page_size());
    lemma_fundamental_div_mod(l, page_size());
    lemma_fundamental_div_mod(a + l, page_size());
    assert((a + l) / page_size() == a / page_size() + l / page_size()) by (nonlinear_arith)
        requires
            a == page_size() * (a / page_size()),
            l == page_size() * (l / page_size()) + l % page_size(),
            0 <= l % page_size() < page_size(),
            a + l == page_size() * ((a + l) / page_size()) + (a + l) % page_size(),
            0 <= (a + l) % page_size() < page_size(),
    ;
}

/// Every byte of a page-aligned range has its page inside the range's pages.
pub proof fn lemma_byte_page_in_range(v: RegionView, offset: int, len: int, i: int)
    requires
        page_aligned_range(v, offset, len),
        offset <= i < offset + len,
    ensures
        page_in_range(offset, len, page_of(i)),
{
    lemma_div_is_ordered(offset, i, page_size());
    lemma_div_is_ordered(i, offset + len - 1, page_size());
    lemma_aligned_sum(offset, len);
    lemma_aligned_end(offset + len);
}

/// Every byte of a page-aligned range of a well-formed region has its page
/// both inside the range's pages and inside the region's pages.
pub proof fn lemma_page_of_range_bounds(v: RegionView, offset: int, len: int, i: int)
    requires
        wf(v),
        page_aligned_range(v, offset, len),
        offset <= i < offset + len,
    ensures
        0 <= page_of(i) < page_count(v),
        page_in_range(offset, len, page_of(i)),
{
    lemma_byte_page_in_range(v, offset, len, i);
    lemma_div_is_ordered(0, offset, page_size());
    lemma_div_is_ordered(offset + len, v.bytes.len() as int, page_size());
}

/// A resolution action never changes the bytes and only adds populated and
/// present flags, so it preserves well-formedness.
pub proof fn lemma_wf_resolved(v: RegionView, offset: int, len: int)
    requires
        wf(v),
    ensures
        wf(resolved(v, offset, len)),
{
    let w = resolved(v, offset, len);
    assert forall|p: int| 0 <= p < page_count(w) && !(#[trigger] w.populated[p]) implies page_zeroed(
        w,
        p,
    ) by {
        assert(!v.populated[p]);
        assert(page_zeroed(v, p));
        assert forall|i: int|
            p * page_size() <= i < (p + 1) * page_size() && 0 <= i < w.bytes.len() implies #[trigger] w.bytes[i]
            == 0 by {
            assert(v.bytes[i] == 0);
        }
    }
}

/// A shadow write marks every page it stages bytes on as populated, so it
/// preserves well-formedness: pages left unpopulated keep their bytes.
pub proof fn lemma_wf_shadow_written(v: RegionView, offset: int, data: Seq<u8>)
    requires
        wf(v),
        0 <= offset,
        offset + data.len() <= v.bytes.len(),
    ensures
        wf(shadow_written(v, offset, data)),
{
    let w = shadow_written(v, offset, data);
    assert forall|p: int| 0 <= p < page_count(w) && !(#[trigger] w.populated[p]) implies page_zeroed(
        w,
        p,
    ) by {
        assert(!v.populated[p]);
        assert(page_zeroed(v, p));
        assert forall|i: int|
            p * page_size() <= i < (p + 1) * page_size() && 0 <= i < w.bytes.len() implies #[trigger] w.bytes[i]
            == 0 by {
            if offset <= i < offset + data.len() {
                lemma_page_of_bounds(i, p);
                lemma_div_is_ordered(offset, i, page_size());
                lemma_div_is_ordered(i, offset + data.len() - 1, page_size());
                assert(page_touched(offset, data.len() as int, p));
                assert(false);
            } else {
                assert(w.bytes[i] == v.bytes[i]);
            }
        }
    }
}

/// Characterizes the address a touch faults on: the first byte of the range
/// whose page is not present.
pub proof fn lemma_first_blocked_at(v: RegionView, offset: int, len: int, f: int)
    requires
        offset <= f < offset + len,
        !byte_present(v, f),
        forall|j: int| offset <= j < f ==> byte_present(v, j),
    ensures
        first_blocked(v, offset, len) == f,
    decreases f - offset,
{
    if offset < f {
        assert(byte_present(v, offset));
        lemma_first_blocked_at(v, offset + 1, len - 1, f);
    }
}

/// Law: before any resolution, a first touch anywhere in an unpopulated
/// page-aligned range blocks the touching thread with a missing fault; the
/// zero-fill resolution covering the range is accepted; and once it has
/// completed, every touch of the range proceeds and reads zero bytes,
/// deterministically.
pub proof fn lemma_first_touch_blocks_until_zero_fill(
    v: RegionView,
    offset: int,
    len: int,
    t_off: int,
    t_len: int,
)
    requires
        wf(v),
        page_aligned_range(v, offset, len),
        offset <= t_off,
        t_off + t_len <= offset + len,
        0 < t_len,
        forall|p: int|
            0 <= p < page_count(v) && page_in_range(offset, len, p) ==> !(
            #[trigger] v.populated[p]),
    ensures
        !range_present(v, t_off, t_len),
        first_blocked(v, t_off, t_len) == t_off,
        fault_kind_at(v, t_off) == FaultKind::Missing,
        !zero_fill_rejected(v, offset, len),
        range_present(resolved(v, offset, len), t_off, t_len),
        forall|i: int|
            t_off <= i < t_off + t_len ==> #[trigger] resolved(v, offset, len).bytes[i] == 0,
{
    let w = resolved(v, offset, len);
    assert forall|i: int| t_off <= i < t_off + t_len implies !(#[trigger] byte_present(v, i)) by {
        lemma_page_of_range_bounds(v, offset, len, i);
        assert(!v.populated[page_of(i)]);
    }
    assert(!byte_present(v, t_off));
    lemma_page_of_range_bounds(v, offset, len, t_off);
    assert(!v.populated[page_of(t_off)]);
    lemma_first_blocked_at(v, t_off, t_len, t_off);
    assert forall|i: int| t_off <= i < t_off + t_len implies #[trigger] byte_present(w, i) by {
        lemma_page_of_range_bounds(v, offset, len, i);
    }
    assert forall|i: int| t_off <= i < t_off + t_len implies #[trigger] resolved(
        v,
        offset,
        len,
    ).bytes[i] == 0 by {
        lemma_page_of_range_bounds(v, offset, len, i);
        lemma_page_split(i);
        assert(!v.populated[page_of(i)]);
        assert(page_zeroed(v, page_of(i)));
    }
}

/// Law: round-trip fidelity between shadow write and guarded read. Bytes
/// staged through the shadow mapping and then exposed by a continue
/// resolution covering them read back through the guarded mapping exactly
/// as written.
pub proof fn lemma_shadow_write_round_trip(
    v: RegionView,
    w_off: int,
    data: Seq<u8>,
    offset: int,
    len: int,
)
    requires
        wf(v),
        0 < data.len(),
        page_aligned_range(v, offset, len),
        offset <= w_off,
        w_off + data.len() <= offset + len,
        forall|p: int|
            0 <= p < page_count(v) && page_in_range(offset, len, p) ==> !(#[trigger] v.present[p]),
    ensures
        wf(shadow_written(v, w_off, data)),
        !continue_rejected(shadow_written(v, w_off, data), offset, len),
        range_present(
            resolved(shadow_written(v, w_off, data), offset, len),
            w_off,
            data.len() as int,
        ),
        resolved(shadow_written(v, w_off, data), offset, len).bytes.subrange(
            w_off,
            w_off + data.len() as int,
        ) == data,
{
    lemma_wf_shadow_written(v, w_off, data);
    let w1 = shadow_written(v, w_off, data);
    let w2 = resolved(w1, offset, len);
    assert forall|i: int| w_off <= i < w_off + data.len() implies #[trigger] byte_present(
        w2,
        i,
    ) by {
        lemma_page_of_range_bounds(v, offset, len, i);
    }
    assert(w2.bytes.subrange(w_off, w_off + data.len() as int) =~= data);
}

/// Law: exactly one resolution action per faulting range. One successful
/// resolution makes every touch of the range proceed, and a second
/// resolution attempt of either kind on the same range is rejected as
/// invalid — a rejection leaves the region unchanged, so no thread is ever
/// re-blocked by it.
pub proof fn lemma_resolution_idempotent(v: RegionView, offset: int, len: int)
    requires
        wf(v),
        page_aligned_range(v, offset, len),
    ensures
        wf(resolved(v, offset, len)),
        range_present(resolved(v, offset, len), offset, len),
        zero_fill_rejected(resolved(v, offset, len), offset, len),
        continue_rejected(resolved(v, offset, len), offset, len),
{
    lemma_wf_resolved(v, offset, len);
    let w = resolved(v, offset, len);
    assert forall|i: int| offset <= i < offset + len implies #[trigger] byte_present(w, i) by {
        lemma_page_of_range_bounds(v, offset, len, i);
    }
    let p0 = offset / page_size();
    lemma_fundamental_div_mod(len, page_size());
    assert(len / page_size() > 0) by (nonlinear_arith)
        requires
            len == page_size() * (len / page_size()),
            0 < len,
    ;
    lemma_aligned_split(offset, len);
    lemma_div_is_ordered(offset + len, v.bytes.len() as int, page_size());
    lemma_div_is_ordered(0, offset, page_size());
    assert(page_in_range(offset, len, p0));
    assert(w.populated[p0] && w.present[p0]);
}

/// The outcome of touching the guarded mapping: the bytes, or a suspension
/// of the touching thread on the first address whose page is not present.
pub enum TouchOutcome {
    Read(Vec<u8>),
    Blocked { offset: usize, kind: FaultKind },
}

/// One demand-populated region: a backing store seen through a shadow
/// mapping and a guarded mapping.
pub struct Region {
    backing: Vec<u8>,
    populated: Vec<bool>,
    present: Vec<bool>,
}

impl View for Region {
    type V = RegionView;

    closed spec fn view(&self) -> RegionView {
        RegionView { bytes: self.backing@, populated: self.populated@, present: self.present@ }
    }
}

fn zero_bytes(n: usize) -> (r: Vec<u8>)
    ensures
        r@ == Seq::new(n as nat, |i: int| 0u8),
{
    let mut r: Vec<u8> = Vec::new();
    let mut i: usize = 0;
    while i < n
        invariant
            i <= n,
            r@.len() == i,
            forall|j: int| 0 <= j < i ==> r@[j] == 0,
        decreases n - i,
    {
        r.push(0);
        i = i + 1;
    }
    assert(r@ =~= Seq::new(n as nat, |i: int| 0u8));
    r
}

fn false_flags(n: usize) -> (r: Vec<bool>)
    ensures
        r@ == Seq::new(n as nat, |i: int| false),
{
    let mut r: Vec<bool> = Vec::new();
    let mut i: usize = 0;
    while i < n
        invariant
            i <= n,
            r@.len() == i,
            forall|j: int| 0 <= j < i ==> !r@[j],
        decreases n - i,
    {
        r.push(false);
        i = i + 1;
    }
    assert(r@ =~= Seq::new(n as nat, |i: int| false));
    r
}

impl Region {
    /// Creates the backing store and both mappings for a region of `size`
    /// bytes: zero-initialized, nothing populated, nothing present. Fails
    /// when the size is not a positive whole multiple of the page size.
    pub fn create(size: usize) -> (r: Result<Region, AllocationError>)
        ensures
            r is Ok <==> valid_size(size as int),
            r matches Ok(region) ==> region@ == fresh_view(size as int) && wf(region@),
            r matches Err(e) ==> e == AllocationError::InvalidSize,
    {
        if size == 0 || size % PAGE_SIZE != 0 {
            return Err(AllocationError::InvalidSize);
        }
        let pages: usize = size / PAGE_SIZE;
        let region = Region {
            backing: zero_bytes(size),
            populated: false_flags(pages),
            present: false_flags(pages),
        };
        assert(wf(region@)) by {
            assert forall|p: int|
                0 <= p < page_count(region@) && !(#[trigger] region@.populated[p]) implies page_zeroed(
                region@,
                p,
            ) by {}
        }
        Ok(region)
    }

    /// The size of the region in bytes.
    pub fn size(&self) -> (n: usize)
        ensures
            n == self@.bytes.len(),
    {
        self.backing.len()
    }

    /// Writes `data` at `offset` through the shadow mapping. The shadow
    /// mapping is immediately writable: no fault, no error. Every page the
    /// write touches gains backing content; presence in the guarded mapping
    /// is unchanged.
    pub fn write_shadow(&mut self, offset: usize, data: &[u8])
        requires
            wf(old(self)@),
            offset + data@.len() <= old(self)@.bytes.len(),
        ensures
            final(self)@ == shadow_written(old(self)@, offset as int, data@),
            wf(final(self)@),
    {
        let len: usize = data.len();
        let size: usize = self.backing.len();
        let mut k: usize = 0;
        while k < len
            invariant
                wf(old(self)@),
                len == data@.len(),
                size == old(self)@.bytes.len(),
                offset + len <= size,
                k <= len,
                self.backing@.len() == old(self)@.bytes.len(),
                self.populated@ == old(self)@.populated,
                self.present@ == old(self)@.present,
                forall|i: int|
                    offset <= i < offset + k ==> #[trigger] self.backing@[i] == data@[i - offset],
                forall|i: int|
                    0 <= i < self.backing@.len() && !(offset <= i < offset + k)
                        ==> #[trigger] self.backing@[i] == old(self)@.bytes[i],
            decreases len - k,
        {
            self.backing[offset + k] = data[k];
            k = k + 1;
        }
        let ghost mid: Seq<u8> = self.backing@;
        if len > 0 {
            let p0: usize = offset / PAGE_SIZE;
            let p1: usize = (offset + len - 1) / PAGE_SIZE;
            proof {
                lemma_div_is_ordered(
                    offset as int + len as int - 1,
                    old(self)@.bytes.len() as int - 1,
                    page_size(),
                );
                lemma_aligned_end(old(self)@.bytes.len() as int);
                lemma_div_is_ordered(offset as int, offset as int + len as int - 1, page_size());
                lemma_div_nonincreasing(offset as int + len as int - 1, page_size());
            }
            let mut p: usize = p0;
            while p < p1 + 1
                invariant
                    wf(old(self)@),
                    len == data@.len(),
                    0 < len,
                    size == old(self)@.bytes.len(),
                    offset + len <= size,
                    p1 < size,
                    p0 == offset as int / page_size(),
                    p1 == (offset as int + len as int - 1) / page_size(),
                    p0 <= p <= p1 + 1,
                    p1 < old(self)@.populated.len(),
                    self.backing@ == mid,
                    self.present@ == old(self)@.present,
                    self.populated@.len() == old(self)@.populated.len(),
                    forall|q: int|
                        0 <= q < self.populated@.len() && !(p0 <= q < p)
                            ==> #[trigger] self.populated@[q] == old(self)@.populated[q],
                    forall|q: int| p0 <= q < p ==> #[trigger] self.populated@[q],
                decreases p1 + 1 - p,
            {
                self.populated[p] = true;
                p = p + 1;
            }
        }
        proof {
            let w = shadow_written(old(self)@, offset as int, data@);
            assert(self.backing@ =~= w.bytes);
            assert(self.populated@ =~= w.populated);
            assert(self@ =~= w);
            lemma_wf_shadow_written(old(self)@, offset as int, data@);
        }
    }

    /// Touches `len` bytes of the guarded mapping at `offset`, as a consumer
    /// thread's read would. If every page of the range is present the bytes
    /// come back; otherwise the touching thread is suspended by the kernel
    /// on the first non-present address, and the outcome reports the fault
    /// that is raised for it.
    pub fn touch_guarded(&self, offset: usize, len: usize) -> (r: TouchOutcome)
        requires
            wf(self@),
            offset + len <= self@.bytes.len(),
        ensures
            r is Read <==> range_present(self@, offset as int, len as int),
            r matches TouchOutcome::Read(d) ==> d@ == self@.bytes.subrange(
                offset as int,
                offset as int + len as int,
            ),
            r matches TouchOutcome::Blocked { offset: f, kind } ==> {
                &&& f as int == first_blocked(self@, offset as int, len as int)
                &&& offset <= f < offset + len
                &&& !byte_present(self@, f as int)
                &&& kind == fault_kind_at(self@, f as int)
            },
    {
        let size: usize = self.backing.len();
        let mut k: usize = 0;
        while k < len
            invariant
                wf(self@),
                offset + len <= size,
                size == self@.bytes.len(),
                k <= len,
                forall|j: int| offset <= j < offset + k ==> #[trigger] byte_present(self@, j),
            decreases len - k,
        {
            let i: usize = offset + k;
            let p: usize = i / PAGE_SIZE;
            proof {
                lemma_div_is_ordered(i as int, size as int - 1, page_size());
                lemma_aligned_end(size as int);
            }
            if !self.present[p] {
                proof {
                    assert(!byte_present(self@, i as int));
                    lemma_first_blocked_at(self@, offset as int, len as int, i as int);
                }
                if self.populated[p] {
                    return TouchOutcome::Blocked { offset: i, kind: FaultKind::Minor };
                } else {
                    return TouchOutcome::Blocked { offset: i, kind: FaultKind::Missing };
                }
            }
            k = k + 1;
        }
        let mut out: Vec<u8> = Vec::new();
        let mut k: usize = 0;
        while k < len
            invariant
                size == self@.bytes.len(),
                offset + len <= size,
                k <= len,
                out@.len() == k,
                forall|j: int| 0 <= j < k ==> #[trigger] out@[j] == self@.bytes[offset + j],
            decreases len - k,
        {
            out.push(self.backing[offset + k]);
            k = k + 1;
        }
        proof {
            assert(out@ =~= self@.bytes.subrange(offset as int, offset as int + len as int));
        }
        TouchOutcome::Read(out)
    }

    /// Zero-fill resolution: atomically marks `[offset, offset + len)`
    /// present and zero-valued in the guarded mapping, releasing any thread
    /// blocked on those addresses. Rejected as invalid — leaving the region
    /// unchanged — when the range is not a page-aligned range of the region
    /// or some page of it already has backing content.
    pub fn zero_fill(&mut self, offset: usize, len: usize) -> (r: Result<(), ResolutionError>)
        requires
            wf(old(self)@),
        ensures
            wf(final(self)@),
            r is Ok <==> !zero_fill_rejected(old(self)@, offset as int, len as int),
            r is Ok ==> final(self)@ == resolved(old(self)@, offset as int, len as int),
            r is Err ==> final(self)@ == old(self)@ && r == Err::<(), ResolutionError>(
                ResolutionError::Invalid,
            ),
    {
        let size: usize = self.backing.len();
        if len == 0 || offset % PAGE_SIZE != 0 || len % PAGE_SIZE != 0 || offset > size || len
            > size - offset {
            return Err(ResolutionError::Invalid);
        }
        let p0: usize = offset / PAGE_SIZE;
        let np: usize = len / PAGE_SIZE;
        proof {
            lemma_aligned_split(offset as int, len as int);
            lemma_div_is_ordered(offset as int + len as int, size as int, page_size());
        }
        let mut k: usize = 0;
        while k < np
            invariant
                wf(old(self)@),
                self@ == old(self)@,
                size == old(self)@.bytes.len(),
                p0 == offset as int / page_size(),
                np == len as int / page_size(),
                p0 + np == (offset as int + len as int) / page_size(),
                p0 + np <= old(self)@.populated.len(),
                k <= np,
                forall|j: int| 0 <= j < k ==> !(#[trigger] old(self)@.populated[p0 + j]),
            decreases np - k,
        {
            if self.populated[p0 + k] {
                proof {
                    assert(page_in_range(offset as int, len as int, p0 + k as int));
                    assert(zero_fill_rejected(old(self)@, offset as int, len as int));
                }
                return Err(ResolutionError::Invalid);
            }
            k = k + 1;
        }
        proof {
            assert forall|p: int|
                0 <= p < page_count(old(self)@) && page_in_range(
                    offset as int,
                    len as int,
                    p,
                ) implies !(#[trigger] old(self)@.populated[p]) by {
                assert(!old(self)@.populated[p0 + (p - p0)]);
            }
        }
        self.mark_resolved(offset, len, p0, np);
        Ok(())
    }

    /// Continue resolution: atomically marks `[offset, offset + len)`
    /// present in the guarded mapping using the bytes already staged through
    /// the shadow mapping, releasing any thread blocked on those addresses.
    /// Rejected as invalid — leaving the region unchanged — when the range
    /// is not a page-aligned range of the region or some page of it is
    /// already present.
    pub fn continue_range(&mut self, offset: usize, len: usize) -> (r: Result<(), ResolutionError>)
        requires
            wf(old(self)@),
        ensures
            wf(final(self)@),
            r is Ok <==> !continue_rejected(old(self)@, offset as int, len as int),
            r is Ok ==> final(self)@ == resolved(old(self)@, offset as int, len as int),
            r is Err ==> final(self)@ == old(self)@ && r == Err::<(), ResolutionError>(
                ResolutionError::Invalid,
            ),
    {
        let size: usize = self.backing.len();
        if len == 0 || offset % PAGE_SIZE != 0 || len % PAGE_SIZE != 0 || offset > size || len
            > size - offset {
            return Err(ResolutionError::Invalid);
        }
        let p0: usize = offset / PAGE_SIZE;
        let np: usize = len / PAGE_SIZE;
        proof {
            lemma_aligned_split(offset as int, len as int);
            lemma_div_is_ordered(offset as int + len as int, size as int, page_size());
        }
        let mut k: usize = 0;
        while k < np
            invariant
                wf(old(self)@),
                self@ == old(self)@,
                size == old(self)@.bytes.len(),
                p0 == offset as int / page_size(),
                np == len as int / page_size(),
                p0 + np == (offset as int + len as int) / page_size(),
                p0 + np <= old(self)@.present.len(),
                k <= np,
                forall|j: int| 0 <= j < k ==> !(#[trigger] old(self)@.present[p0 + j]),
            decreases np - k,
        {
            if self.present[p0 + k] {
                proof {
                    assert(page_in_range(offset as int, len as int, p0 + k as int));
                    assert(continue_rejected(old(self)@, offset as int, len as int));
                }
                return Err(ResolutionError::Invalid);
            }
            k = k + 1;
        }
        proof {
            assert forall|p: int|
                0 <= p < page_count(old(self)@) && page_in_range(
                    offset as int,
                    len as int,
                    p,
                ) implies !(#[trigger] old(self)@.present[p]) by {
                assert(!old(self)@.present[p0 + (p - p0)]);
            }
        }
        self.mark_resolved(offset, len, p0, np);
        Ok(())
    }

    /// Marks the pages of a validated page-aligned range populated and
    /// present.
    fn mark_resolved(&mut self, offset: usize, len: usize, p0: usize, np: usize)
        requires
            wf(old(self)@),
            page_aligned_range(old(self)@, offset as int, len as int),
            p0 == offset as int / page_size(),
            np == len as int / page_size(),
            p0 + np <= old(self)@.populated.len(),
        ensures
            final(self)@ == resolved(old(self)@, offset as int, len as int),
            wf(final(self)@),
    {
        let pcount: usize = self.populated.len();
        let mut k: usize = 0;
        while k < np
            invariant
                wf(old(self)@),
                p0 == offset as int / page_size(),
                np == len as int / page_size(),
                p0 + np <= pcount,
                pcount == self.populated@.len(),
                k <= np,
                self.backing@ == old(self)@.bytes,
                self.populated@.len() == old(self)@.populated.len(),
                self.present@.len() == old(self)@.present.len(),
                forall|q: int|
                    0 <= q < self.populated@.len() && !(p0 <= q < p0 + k)
                        ==> #[trigger] self.populated@[q] == old(self)@.populated[q],
                forall|q: int| p0 <= q < p0 + k ==> #[trigger] self.populated@[q],
                forall|q: int|
                    0 <= q < self.present@.len() && !(p0 <= q < p0 + k)
                        ==> #[trigger] self.present@[q] == old(self)@.present[q],
                forall|q: int| p0 <= q < p0 + k ==> #[trigger] self.present@[q],
            decreases np - k,
        {
            self.populated[p0 + k] = true;
            self.present[p0 + k] = true;
            k = k + 1;
        }
        proof {
            lemma_aligned_split(offset as int, len as int);
            let w = resolved(old(self)@, offset as int, len as int);
            assert(self.populated@ =~= w.populated);
            assert(self.present@ =~= w.present);
            assert(self@ =~= w);
            lemma_wf_resolved(old(self)@, offset as int, len as int);
        }
    }
}

} // verus!
