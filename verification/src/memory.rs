//! The simulated address space: a list of regions, each with its own bytes,
//! looked up by address containment.

use vstd::prelude::*;

verus! {

/// What a region stands for in the analysed program.
#[derive(Debug, Clone, Copy, PartialEq, Eq, Structural)]
pub enum MemoryType {
    Image,
    Stack,
    Heap,
    Other,
}

/// Why an access to the address space was refused.
#[derive(Debug, Clone, Copy, PartialEq, Eq, Structural)]
pub enum MemError {
    /// No region holds the whole range.
    OutOfBounds,
    /// The region that holds the range cannot be written.
    ReadOnlyRegion,
    /// No region holds the address.
    Unmapped,
}

/// One contiguous span of the address space with the bytes behind it.
#[derive(Debug)]
pub struct Region {
    pub base_addr: u64,
    pub mem_type: MemoryType,
    pub writable: bool,
    pub bytes: Vec<u8>,
}

/// The mathematical content of a [`Region`].
pub struct RegionModel {
    pub base: u64,
    pub kind: MemoryType,
    pub writable: bool,
    pub bytes: Seq<u8>,
}

impl RegionModel {
    /// One past the last address of the region.
    pub open spec fn end(self) -> int {
        self.base + self.bytes.len()
    }

    /// The region holds every address of `[addr, addr + len)`.
    pub open spec fn covers(self, addr: u64, len: nat) -> bool {
        self.base <= addr && addr + len <= self.end()
    }

    /// The region with `data` laid over its bytes from offset `off` on.
    pub open spec fn overlay(self, off: int, data: Seq<u8>) -> RegionModel {
        RegionModel { bytes: overlay_bytes(self.bytes, off, data), ..self }
    }
}

/// `bytes` with `data` laid over them from offset `off` on.
pub open spec fn overlay_bytes(bytes: Seq<u8>, off: int, data: Seq<u8>) -> Seq<u8> {
    Seq::new(
        bytes.len(),
        |k: int| if off <= k < off + data.len() { data[k - off] } else { bytes[k] },
    )
}

impl View for Region {
    type V = RegionModel;

    open spec fn view(&self) -> RegionModel {
        RegionModel {
            base: self.base_addr,
            kind: self.mem_type,
            writable: self.writable,
            bytes: self.bytes@,
        }
    }
}

/// Some region of `regions` holds the whole range.
pub open spec fn has_cover(regions: Seq<RegionModel>, addr: u64, len: nat) -> bool {
    exists|i: int| 0 <= i < regions.len() && (#[trigger] regions[i]).covers(addr, len)
}

/// `i` is the first region of `regions` that holds the whole range.
pub open spec fn is_first_cover(regions: Seq<RegionModel>, addr: u64, len: nat, i: int) -> bool {
    &&& 0 <= i < regions.len()
    &&& regions[i].covers(addr, len)
    &&& forall|j: int| 0 <= j < i ==> !(#[trigger] regions[j]).covers(addr, len)
}

/// The index of the first region that holds the whole range, where there is one.
pub open spec fn first_cover(regions: Seq<RegionModel>, addr: u64, len: nat) -> int {
    choose|i: int| is_first_cover(regions, addr, len, i)
}

/// Lookup is first-match: two indices that are both first are one index.
pub proof fn lemma_first_cover_unique(regions: Seq<RegionModel>, addr: u64, len: nat, i: int)
    requires
        is_first_cover(regions, addr, len, i),
    ensures
        has_cover(regions, addr, len),
        first_cover(regions, addr, len) == i,
{
    let c = first_cover(regions, addr, len);
    assert(is_first_cover(regions, addr, len, c));
    if c < i {
        assert(!regions[c].covers(addr, len));
    }
    if i < c {
        assert(!regions[i].covers(addr, len));
    }
}

/// Where some region holds the range, one of them is the first.
pub proof fn lemma_first_cover_exists(regions: Seq<RegionModel>, addr: u64, len: nat)
    requires
        has_cover(regions, addr, len),
    ensures
        is_first_cover(regions, addr, len, first_cover(regions, addr, len)),
{
    let w = choose|i: int| 0 <= i < regions.len() && (#[trigger] regions[i]).covers(addr, len);
    lemma_first_cover_before(regions, addr, len, w);
}

/// Where region `w` holds the range, a first one stands at or before `w`.
proof fn lemma_first_cover_before(regions: Seq<RegionModel>, addr: u64, len: nat, w: int)
    requires
        0 <= w < regions.len(),
        regions[w].covers(addr, len),
    ensures
        exists|i: int| is_first_cover(regions, addr, len, i),
    decreases w,
{
    if exists|j: int| 0 <= j < w && (#[trigger] regions[j]).covers(addr, len) {
        let j = choose|j: int| 0 <= j < w && (#[trigger] regions[j]).covers(addr, len);
        lemma_first_cover_before(regions, addr, len, j);
    } else {
        assert(is_first_cover(regions, addr, len, w));
    }
}

/// What `read` returns on the regions `regions`.
pub open spec fn spec_read(regions: Seq<RegionModel>, addr: u64, len: nat) -> Result<
    Seq<u8>,
    MemError,
> {
    if has_cover(regions, addr, len) {
        let r = regions[first_cover(regions, addr, len)];
        Ok(r.bytes.subrange(addr - r.base, addr - r.base + len))
    } else {
        Err(MemError::OutOfBounds)
    }
}

/// What `write` makes of the regions `regions`.
pub open spec fn spec_write(regions: Seq<RegionModel>, addr: u64, data: Seq<u8>) -> Result<
    Seq<RegionModel>,
    MemError,
> {
    if has_cover(regions, addr, data.len()) {
        let i = first_cover(regions, addr, data.len());
        let r = regions[i];
        if r.writable {
            Ok(regions.update(i, r.overlay(addr - r.base, data)))
        } else {
            Err(MemError::ReadOnlyRegion)
        }
    } else {
        Err(MemError::OutOfBounds)
    }
}

/// The bytes from `addr` to the end of its region, `max` of them at most.
pub open spec fn spec_window(regions: Seq<RegionModel>, addr: u64, max: nat) -> Result<
    Seq<u8>,
    MemError,
> {
    if has_cover(regions, addr, 1) {
        let r = regions[first_cover(regions, addr, 1)];
        let n = if r.end() - addr < max { r.end() - addr } else { max as int };
        Ok(r.bytes.subrange(addr - r.base, addr - r.base + n))
    } else {
        Err(MemError::Unmapped)
    }
}

/// Every region ends at an address that a `u64` can hold.
pub open spec fn regions_fit(regions: Seq<RegionModel>) -> bool {
    forall|i: int| 0 <= i < regions.len() ==> (#[trigger] regions[i]).end() <= u64::MAX
}

/// The regions have the bases, kinds and sizes of `before`; only bytes may differ.
pub open spec fn same_layout(before: Seq<RegionModel>, after: Seq<RegionModel>) -> bool {
    &&& after.len() == before.len()
    &&& forall|i: int|
        0 <= i < before.len() ==> {
            &&& (#[trigger] after[i]).base == before[i].base
            &&& after[i].kind == before[i].kind
            &&& after[i].writable == before[i].writable
            &&& after[i].bytes.len() == before[i].bytes.len()
        }
}

/// A write never moves, adds or resizes a region.
pub proof fn lemma_write_keeps_layout(regions: Seq<RegionModel>, addr: u64, data: Seq<u8>)
    ensures
        spec_write(regions, addr, data) matches Ok(after) ==> same_layout(regions, after),
{
    if has_cover(regions, addr, data.len()) {
        lemma_first_cover_exists(regions, addr, data.len());
    }
}

/// Keeping the layout is transitive.
pub proof fn lemma_same_layout_trans(
    a: Seq<RegionModel>,
    b: Seq<RegionModel>,
    c: Seq<RegionModel>,
)
    requires
        same_layout(a, b),
        same_layout(b, c),
    ensures
        same_layout(a, c),
{
    assert forall|i: int| 0 <= i < a.len() implies {
        &&& (#[trigger] c[i]).base == a[i].base
        &&& c[i].kind == a[i].kind
        &&& c[i].writable == a[i].writable
        &&& c[i].bytes.len() == a[i].bytes.len()
    } by {
        assert(b[i].base == a[i].base);
    }
}

/// Regions of one layout hold the same ranges.
pub proof fn lemma_same_layout_covers(
    before: Seq<RegionModel>,
    after: Seq<RegionModel>,
    addr: u64,
    len: nat,
)
    requires
        same_layout(before, after),
    ensures
        has_cover(after, addr, len) == has_cover(before, addr, len),
        regions_fit(before) ==> regions_fit(after),
{
    if has_cover(before, addr, len) {
        let i = choose|i: int| 0 <= i < before.len() && (#[trigger] before[i]).covers(addr, len);
        assert(after[i].covers(addr, len));
    }
    if has_cover(after, addr, len) {
        let i = choose|i: int| 0 <= i < after.len() && (#[trigger] after[i]).covers(addr, len);
        assert(before[i].covers(addr, len));
    }
    if regions_fit(before) {
        assert forall|i: int| 0 <= i < after.len() implies (#[trigger] after[i]).end()
            <= u64::MAX by {
            assert(before[i].end() <= u64::MAX);
        }
    }
}

/// The number that `bytes` spell, least significant byte first.
pub open spec fn le_value(bytes: Seq<u8>) -> nat
    decreases bytes.len(),
{
    if bytes.len() == 0 {
        0
    } else {
        bytes[0] as nat + 256 * le_value(bytes.drop_first())
    }
}

/// The `n` low bytes of `value`, least significant byte first.
pub open spec fn le_bytes(value: nat, n: nat) -> Seq<u8>
    decreases n,
{
    if n == 0 {
        Seq::<u8>::empty()
    } else {
        seq![(value % 256) as u8] + le_bytes(value / 256, (n - 1) as nat)
    }
}

/// 256 to the power `n`.
pub open spec fn pow256(n: nat) -> nat
    decreases n,
{
    if n == 0 {
        1
    } else {
        256 * pow256((n - 1) as nat)
    }
}

/// The powers of 256 that fit a `u64`, and the first that does not.
pub proof fn lemma_pow256_values()
    ensures
        pow256(0) == 1,
        pow256(1) == 0x100,
        pow256(2) == 0x1_0000,
        pow256(3) == 0x100_0000,
        pow256(4) == 0x1_0000_0000,
        pow256(5) == 0x100_0000_0000,
        pow256(6) == 0x1_0000_0000_0000,
        pow256(7) == 0x100_0000_0000_0000,
        pow256(8) == 0x1_0000_0000_0000_0000,
{
    reveal_with_fuel(pow256, 9);
}

/// `n` bytes spell a number below 256 to the `n`.
pub proof fn lemma_le_value_bound(bytes: Seq<u8>)
    ensures
        le_value(bytes) < pow256(bytes.len()),
    decreases bytes.len(),
{
    if bytes.len() > 0 {
        lemma_le_value_bound(bytes.drop_first());
    }
}

/// Every power of 256 is positive.
pub proof fn lemma_pow256_positive(n: nat)
    ensures
        pow256(n) > 0,
    decreases n,
{
    if n > 0 {
        lemma_pow256_positive((n - 1) as nat);
    }
}

/// A word written is the word read: the `n` low bytes of a number spell
/// that number reduced to `n` bytes.
pub proof fn lemma_le_round_trip(value: nat, n: nat)
    ensures
        le_bytes(value, n).len() == n,
        le_value(le_bytes(value, n)) == value % pow256(n),
    decreases n,
{
    if n > 0 {
        let low = (n - 1) as nat;
        lemma_le_round_trip(value / 256, low);
        lemma_pow256_positive(low);
        let rest = le_bytes(value / 256, low);
        let all = le_bytes(value, n);
        assert(all.drop_first() =~= rest);
        assert(all[0] == (value % 256) as u8);
        vstd::arithmetic::div_mod::lemma_mod_breakdown(value as int, 256, pow256(low) as int);
        assert(pow256(n) == 256 * pow256(low));
    }
}

/// The number that at most eight bytes spell, least significant byte first.
pub fn decode_le(bytes: &[u8]) -> (v: u64)
    requires
        bytes@.len() <= 8,
    ensures
        v == le_value(bytes@),
{
    let n: usize = bytes.len();
    let mut v: u64 = 0;
    let mut i: usize = n;
    assert(bytes@.subrange(n as int, n as int) =~= Seq::<u8>::empty());
    while i > 0
        invariant
            i <= n,
            n == bytes@.len(),
            n <= 8,
            v == le_value(bytes@.subrange(i as int, n as int)),
        decreases i,
    {
        proof {
            lemma_le_value_bound(bytes@.subrange(i as int, n as int));
            lemma_pow256_values();
            let k = (n - i) as nat;
            assert(k <= 7);
            assert(pow256(k) <= 0x100_0000_0000_0000) by {
                reveal_with_fuel(pow256, 9);
            }
            assert(bytes@.subrange(i - 1, n as int).drop_first() =~= bytes@.subrange(
                i as int,
                n as int,
            ));
        }
        i -= 1;
        v = v * 256 + bytes[i] as u64;
    }
    assert(bytes@.subrange(0, n as int) =~= bytes@);
    v
}

/// The `n` low bytes of `value`, least significant byte first.
pub fn encode_le(value: u64, n: usize) -> (bytes: Vec<u8>)
    ensures
        bytes@ == le_bytes(value as nat, n as nat),
{
    let mut out: Vec<u8> = Vec::new();
    let mut v: u64 = value;
    let mut k: usize = 0;
    assert(out@ + le_bytes(v as nat, n as nat) =~= le_bytes(value as nat, n as nat));
    while k < n
        invariant
            k <= n,
            out@ + le_bytes(v as nat, (n - k) as nat) == le_bytes(value as nat, n as nat),
        decreases n - k,
    {
        let ghost rest = le_bytes((v / 256) as nat, (n - k - 1) as nat);
        assert(le_bytes(v as nat, (n - k) as nat) == seq![(v % 256) as u8] + rest);
        assert(out@.push((v % 256) as u8) + rest =~= out@ + (seq![(v % 256) as u8] + rest));
        out.push((v % 256) as u8);
        v = v / 256;
        k += 1;
    }
    assert(out@ + le_bytes(v as nat, 0) =~= out@);
    out
}

/// The word of `n` bytes read at `addr`, where some region holds it whole.
pub open spec fn spec_read_word(regions: Seq<RegionModel>, addr: u64, n: nat) -> Option<u64> {
    match spec_read(regions, addr, n) {
        Ok(bytes) => Some(le_value(bytes) as u64),
        Err(_) => None,
    }
}

/// The regions after the `n` low bytes of `value` were written at `addr`;
/// the regions unchanged where the write is refused.
pub open spec fn spec_write_word(regions: Seq<RegionModel>, addr: u64, value: u64, n: nat) -> Seq<
    RegionModel,
> {
    match spec_write(regions, addr, le_bytes(value as nat, n)) {
        Ok(after) => after,
        Err(_) => regions,
    }
}

/// The address space: regions in the order in which they were registered.
#[derive(Debug)]
pub struct AddressSpace {
    list: Vec<Region>,
}

impl View for AddressSpace {
    type V = Seq<RegionModel>;

    closed spec fn view(&self) -> Seq<RegionModel> {
        Seq::new(self.list@.len(), |i: int| self.list@[i]@)
    }
}

impl AddressSpace {
    /// Every region ends at an address that a `u64` can hold.
    pub open spec fn wf(&self) -> bool {
        regions_fit(self@)
    }

    /// An address space without regions.
    pub fn new() -> (space: AddressSpace)
        ensures
            space@ == Seq::<RegionModel>::empty(),
            space.wf(),
    {
        let space = AddressSpace { list: Vec::new() };
        assert(space@ =~= Seq::<RegionModel>::empty());
        space
    }

    /// Number of regions.
    pub fn len(&self) -> (n: usize)
        ensures
            n == self@.len(),
    {
        self.list.len()
    }

    /// The region at position `i` of the registration order.
    pub fn region(&self, i: usize) -> (r: &Region)
        requires
            i < self@.len(),
        ensures
            r@ == self@[i as int],
    {
        &self.list[i]
    }

    /// Adds a region behind those already there. A region whose end no `u64`
    /// holds is refused, and the address space stays as it was.
    pub fn register(
        &mut self,
        base_addr: u64,
        mem_type: MemoryType,
        writable: bool,
        bytes: Vec<u8>,
    ) -> (r: Result<(), MemError>)
        requires
            old(self).wf(),
        ensures
            final(self).wf(),
            base_addr + bytes@.len() <= u64::MAX ==> r == Ok::<(), MemError>(()) && final(self)@
                == old(self)@.push(
                RegionModel { base: base_addr, kind: mem_type, writable, bytes: bytes@ },
            ),
            base_addr + bytes@.len() > u64::MAX ==> r == Err::<(), MemError>(MemError::OutOfBounds)
                && final(self)@ == old(self)@,
    {
        if bytes.len() as u64 > u64::MAX - base_addr {
            return Err(MemError::OutOfBounds);
        }
        let ghost model = RegionModel { base: base_addr, kind: mem_type, writable, bytes: bytes@ };
        self.list.push(Region { base_addr, mem_type, writable, bytes });
        assert(self@ =~= old(self)@.push(model));
        Ok(())
    }

    /// Index of the first region that holds `[addr, addr + len)`.
    fn find(&self, addr: u64, len: usize) -> (r: Option<usize>)
        requires
            self.wf(),
        ensures
            match r {
                Some(i) => is_first_cover(self@, addr, len as nat, i as int) && i
                    == first_cover(self@, addr, len as nat) && i < self.list@.len()
                    && self.list@[i as int]@ == self@[i as int] && self.list@[i as int]@.covers(
                    addr,
                    len as nat,
                ),
                None => !has_cover(self@, addr, len as nat),
            },
            r is Some <==> has_cover(self@, addr, len as nat),
    {
        let mut i: usize = 0;
        while i < self.list.len()
            invariant
                i <= self.list@.len(),
                forall|j: int| 0 <= j < i ==> !(#[trigger] self@[j]).covers(addr, len as nat),
            decreases self.list@.len() - i,
        {
            let r = &self.list[i];
            assert(r@ == self@[i as int]);
            if r.base_addr <= addr {
                let off: u64 = addr - r.base_addr;
                let size: u64 = r.bytes.len() as u64;
                if off <= size && len as u64 <= size - off {
                    proof {
                        lemma_first_cover_unique(self@, addr, len as nat, i as int);
                    }
                    return Some(i);
                }
            }
            i += 1;
        }
        None
    }

    /// The region that holds `addr`: the first one registered, where several do.
    pub fn region_for(&self, addr: u64) -> (r: Result<&Region, MemError>)
        requires
            self.wf(),
        ensures
            match r {
                Ok(region) => has_cover(self@, addr, 1) && region@ == self@[first_cover(
                    self@,
                    addr,
                    1,
                )],
                Err(e) => !has_cover(self@, addr, 1) && e == MemError::Unmapped,
            },
    {
        match self.find(addr, 1) {
            Some(i) => Ok(&self.list[i]),
            None => Err(MemError::Unmapped),
        }
    }

    /// Copies `len` bytes from `addr` on out of the first region that holds
    /// them all.
    pub fn read(&self, addr: u64, len: usize) -> (r: Result<Vec<u8>, MemError>)
        requires
            self.wf(),
        ensures
            match r {
                Ok(bytes) => spec_read(self@, addr, len as nat) == Ok::<Seq<u8>, MemError>(bytes@)
                    && bytes@.len() == len,
                Err(e) => spec_read(self@, addr, len as nat) == Err::<Seq<u8>, MemError>(e),
            },
    {
        match self.find(addr, len) {
            Some(i) => {
                let region = &self.list[i];
                let size: usize = region.bytes.len();
                let off: usize = (addr - region.base_addr) as usize;
                let mut out: Vec<u8> = Vec::new();
                let mut k: usize = 0;
                while k < len
                    invariant
                        k <= len,
                        off + len <= region.bytes@.len(),
                        size == region.bytes@.len(),
                        out@ == region.bytes@.subrange(off as int, off + k),
                    decreases len - k,
                {
                    out.push(region.bytes[off + k]);
                    assert(out@ =~= region.bytes@.subrange(off as int, off + k + 1));
                    k += 1;
                }
                Ok(out)
            },
            None => Err(MemError::OutOfBounds),
        }
    }

    /// Copies the bytes from `addr` to the end of its region, but `max` of
    /// them at most.
    pub fn window(&self, addr: u64, max: usize) -> (r: Result<Vec<u8>, MemError>)
        requires
            self.wf(),
        ensures
            match r {
                Ok(bytes) => spec_window(self@, addr, max as nat) == Ok::<Seq<u8>, MemError>(
                    bytes@,
                ) && bytes@.len() <= max && (max >= 1 ==> bytes@.len() >= 1) && addr + bytes@.len()
                    <= u64::MAX && has_cover(
                    self@,
                    addr,
                    bytes@.len(),
                ),
                Err(e) => spec_window(self@, addr, max as nat) == Err::<Seq<u8>, MemError>(e),
            },
    {
        match self.find(addr, 1) {
            Some(i) => {
                let region = &self.list[i];
                let size: usize = region.bytes.len();
                let off: usize = (addr - region.base_addr) as usize;
                let rest: usize = size - off;
                let n: usize = if rest < max { rest } else { max };
                assert(self@[i as int].covers(addr, n as nat));
                let mut out: Vec<u8> = Vec::new();
                let mut k: usize = 0;
                while k < n
                    invariant
                        k <= n,
                        off + n <= region.bytes@.len(),
                        size == region.bytes@.len(),
                        out@ == region.bytes@.subrange(off as int, off + k),
                    decreases n - k,
                {
                    out.push(region.bytes[off + k]);
                    assert(out@ =~= region.bytes@.subrange(off as int, off + k + 1));
                    k += 1;
                }
                Ok(out)
            },
            None => Err(MemError::Unmapped),
        }
    }

    /// Lays `data` over the bytes from `addr` on, in the first region that
    /// holds the whole range. Where there is none, or that region cannot be
    /// written, nothing changes.
    pub fn write(&mut self, addr: u64, data: &[u8]) -> (r: Result<(), MemError>)
        requires
            old(self).wf(),
        ensures
            final(self).wf(),
            match r {
                Ok(_) => spec_write(old(self)@, addr, data@) == Ok::<Seq<RegionModel>, MemError>(
                    final(self)@,
                ),
                Err(e) => spec_write(old(self)@, addr, data@) == Err::<Seq<RegionModel>, MemError>(
                    e,
                ) && final(self)@ == old(self)@,
            },
    {
        match self.find(addr, data.len()) {
            Some(i) => {
                if !self.list[i].writable {
                    return Err(MemError::ReadOnlyRegion);
                }
                let ghost before = self@[i as int];
                let size: usize = self.list[i].bytes.len();
                let off: usize = (addr - self.list[i].base_addr) as usize;
                assert(self.list@[i as int].bytes@ =~= overlay_bytes(
                    before.bytes,
                    off as int,
                    data@.subrange(0, 0),
                ));
                let mut k: usize = 0;
                while k < data.len()
                    invariant
                        k <= data@.len(),
                        i < self.list@.len(),
                        self.list@.len() == old(self).list@.len(),
                        off + data@.len() <= before.bytes.len(),
                        size == before.bytes.len(),
                        before == old(self)@[i as int],
                        before == old(self).list@[i as int]@,
                        forall|j: int|
                            0 <= j < self.list@.len() && j != i ==> self.list@[j] == old(
                                self,
                            ).list@[j],
                        self.list@[i as int].base_addr == before.base,
                        self.list@[i as int].mem_type == before.kind,
                        self.list@[i as int].writable == before.writable,
                        self.list@[i as int].bytes@ == overlay_bytes(
                            before.bytes,
                            off as int,
                            data@.subrange(0, k as int),
                        ),
                    decreases data@.len() - k,
                {
                    let region = &mut self.list[i];
                    region.bytes[off + k] = data[k];
                    assert(self.list@[i as int].bytes@ =~= overlay_bytes(
                        before.bytes,
                        off as int,
                        data@.subrange(0, k + 1),
                    ));
                    k += 1;
                }
                assert(data@.subrange(0, k as int) =~= data@);
                assert(self@ =~= old(self)@.update(i as int, before.overlay(off as int, data@)));
                proof {
                    lemma_write_keeps_layout(old(self)@, addr, data@);
                    lemma_same_layout_covers(old(self)@, self@, addr, 0);
                }
                Ok(())
            },
            None => Err(MemError::OutOfBounds),
        }
    }
    /// Reads the word of `n` bytes at `addr`, least significant byte first.
    pub fn read_word(&self, addr: u64, n: usize) -> (r: Option<u64>)
        requires
            self.wf(),
            n <= 8,
        ensures
            r == spec_read_word(self@, addr, n as nat),
    {
        match self.read(addr, n) {
            Ok(bytes) => {
                proof {
                    lemma_le_value_bound(bytes@);
                    lemma_pow256_values();
                    assert(pow256(bytes@.len()) <= 0x1_0000_0000_0000_0000) by {
                        reveal_with_fuel(pow256, 9);
                    }
                }
                Some(decode_le(bytes.as_slice()))
            },
            Err(_) => None,
        }
    }

    /// Writes the `n` low bytes of `value` at `addr`, least significant byte
    /// first. A refused write changes nothing.
    pub fn write_word(&mut self, addr: u64, value: u64, n: usize) -> (written: bool)
        requires
            old(self).wf(),
        ensures
            final(self).wf(),
            final(self)@ == spec_write_word(old(self)@, addr, value, n as nat),
            written == (spec_write(old(self)@, addr, le_bytes(value as nat, n as nat)) is Ok),
            same_layout(old(self)@, final(self)@),
    {
        let bytes = encode_le(value, n);
        proof {
            lemma_write_keeps_layout(old(self)@, addr, bytes@);
        }
        match self.write(addr, bytes.as_slice()) {
            Ok(_) => true,
            Err(_) => false,
        }
    }
}

} // verus!
