//! The address-space virtualization layer: an ordered collection of
//! address regions, each wrapping one addressable device. A global
//! address resolves to the first region in order that covers it; the
//! most recently mapped region stands first, so later mappings shadow
//! earlier ones. A region may ask for remapping, in which case its
//! device sees addresses relative to the region's start.

use crate::error::VmError;
use crate::memory::Memory;
use crate::screen_device::{screen_write, ScreenAction, ScreenDevice};
use vstd::prelude::*;

verus! {

/// What a device holds, as mathematics: RAM is a byte sequence, the
/// screen is its queue of pending rendering actions.
#[verifier::ext_equal]
pub enum DevView {
    Mem { bytes: Seq<u8> },
    Screen { actions: Seq<ScreenAction> },
}

/// What reading one byte at a device-local address returns.
pub open spec fn dev_read_byte(d: DevView, address: u32) -> Result<u8, VmError> {
    match d {
        DevView::Mem { bytes } => if address < bytes.len() {
            Ok(bytes[address as int])
        } else {
            Err(VmError::OutOfBounds)
        },
        DevView::Screen { .. } => Err(VmError::UnsupportedOperation),
    }
}

/// What reading two bytes at a device-local address returns.
pub open spec fn dev_read_half(d: DevView, address: u32) -> Result<Seq<u8>, VmError> {
    match d {
        DevView::Mem { bytes } => if address + 1 < bytes.len() {
            Ok(seq![bytes[address as int], bytes[address + 1]])
        } else {
            Err(VmError::OutOfBounds)
        },
        DevView::Screen { .. } => Err(VmError::UnsupportedOperation),
    }
}

/// What reading four bytes at a device-local address returns.
pub open spec fn dev_read_word(d: DevView, address: u32) -> Result<Seq<u8>, VmError> {
    match d {
        DevView::Mem { bytes } => if address + 3 < bytes.len() {
            Ok(
                seq![
                    bytes[address as int],
                    bytes[address + 1],
                    bytes[address + 2],
                    bytes[address + 3],
                ],
            )
        } else {
            Err(VmError::OutOfBounds)
        },
        DevView::Screen { .. } => Err(VmError::UnsupportedOperation),
    }
}

/// What writing one byte at a device-local address does.
pub open spec fn dev_write_byte(d: DevView, address: u32, value: u8) -> Result<DevView, VmError> {
    match d {
        DevView::Mem { bytes } => if address < bytes.len() {
            Ok(DevView::Mem { bytes: bytes.update(address as int, value) })
        } else {
            Err(VmError::OutOfBounds)
        },
        DevView::Screen { actions } => match screen_write(actions, address, 0, value) {
            Ok(a) => Ok(DevView::Screen { actions: a }),
            Err(e) => Err(e),
        },
    }
}

/// What writing two bytes at a device-local address does.
pub open spec fn dev_write_half(d: DevView, address: u32, b0: u8, b1: u8) -> Result<
    DevView,
    VmError,
> {
    match d {
        DevView::Mem { bytes } => if address + 1 < bytes.len() {
            Ok(DevView::Mem { bytes: bytes.update(address as int, b0).update(address + 1, b1) })
        } else {
            Err(VmError::OutOfBounds)
        },
        DevView::Screen { actions } => match screen_write(actions, address, b0, b1) {
            Ok(a) => Ok(DevView::Screen { actions: a }),
            Err(e) => Err(e),
        },
    }
}

/// What writing four bytes at a device-local address does. The screen
/// reads only the low half-word: command byte, then character byte.
pub open spec fn dev_write_word(d: DevView, address: u32, b0: u8, b1: u8, b2: u8, b3: u8) -> Result<
    DevView,
    VmError,
> {
    match d {
        DevView::Mem { bytes } => if address + 3 < bytes.len() {
            Ok(
                DevView::Mem {
                    bytes: bytes.update(address as int, b0).update(address + 1, b1).update(
                        address + 2,
                        b2,
                    ).update(address + 3, b3),
                },
            )
        } else {
            Err(VmError::OutOfBounds)
        },
        DevView::Screen { actions } => match screen_write(actions, address, b2, b3) {
            Ok(a) => Ok(DevView::Screen { actions: a }),
            Err(e) => Err(e),
        },
    }
}

/// The capability any backing store offers: byte, half-word and word
/// reads and writes at a device-local address. A device may reject an
/// operation it does not support instead of serving it.
pub trait MemoryMappable {
    /// The mathematical contents of the device.
    spec fn dev(&self) -> DevView;

    fn get_byte(&self, address: u32) -> (r: Result<[u8; 1], VmError>)
        ensures
            (match dev_read_byte(self.dev(), address) {
                Ok(b) => r matches Ok(bytes) && bytes@ == seq![b],
                Err(e) => r matches Err(e2) && e2 == e,
            }),
    ;

    fn get_half_word(&self, address: u32) -> (r: Result<[u8; 2], VmError>)
        ensures
            (match dev_read_half(self.dev(), address) {
                Ok(s) => r matches Ok(bytes) && bytes@ == s,
                Err(e) => r matches Err(e2) && e2 == e,
            }),
    ;

    fn get_word(&self, address: u32) -> (r: Result<[u8; 4], VmError>)
        ensures
            (match dev_read_word(self.dev(), address) {
                Ok(s) => r matches Ok(bytes) && bytes@ == s,
                Err(e) => r matches Err(e2) && e2 == e,
            }),
    ;

    fn write_byte(&mut self, address: u32, value: [u8; 1]) -> (r: Result<(), VmError>)
        ensures
            (match dev_write_byte(old(self).dev(), address, value@[0]) {
                Ok(d) => r matches Ok(u) && final(self).dev() == d,
                Err(e) => r matches Err(e2) && e2 == e && final(self).dev() == old(self).dev(),
            }),
    ;

    fn write_half_word(&mut self, address: u32, value: [u8; 2]) -> (r: Result<(), VmError>)
        ensures
            (match dev_write_half(old(self).dev(), address, value@[0], value@[1]) {
                Ok(d) => r matches Ok(u) && final(self).dev() == d,
                Err(e) => r matches Err(e2) && e2 == e && final(self).dev() == old(self).dev(),
            }),
    ;

    fn write_word(&mut self, address: u32, value: [u8; 4]) -> (r: Result<(), VmError>)
        ensures
            (match dev_write_word(
                old(self).dev(),
                address,
                value@[0],
                value@[1],
                value@[2],
                value@[3],
            ) {
                Ok(d) => r matches Ok(u) && final(self).dev() == d,
                Err(e) => r matches Err(e2) && e2 == e && final(self).dev() == old(self).dev(),
            }),
    ;
}

/// The device kinds a region can own.
pub enum Device {
    Memory(Memory),
    Screen(ScreenDevice),
}

impl MemoryMappable for Device {
    open spec fn dev(&self) -> DevView {
        match self {
            Device::Memory(m) => m.dev(),
            Device::Screen(s) => s.dev(),
        }
    }

    fn get_byte(&self, address: u32) -> (r: Result<[u8; 1], VmError>) {
        match self {
            Device::Memory(m) => m.get_byte(address),
            Device::Screen(s) => s.get_byte(address),
        }
    }

    fn get_half_word(&self, address: u32) -> (r: Result<[u8; 2], VmError>) {
        match self {
            Device::Memory(m) => m.get_half_word(address),
            Device::Screen(s) => s.get_half_word(address),
        }
    }

    fn get_word(&self, address: u32) -> (r: Result<[u8; 4], VmError>) {
        match self {
            Device::Memory(m) => m.get_word(address),
            Device::Screen(s) => s.get_word(address),
        }
    }

    fn write_byte(&mut self, address: u32, value: [u8; 1]) -> (r: Result<(), VmError>) {
        match self {
            Device::Memory(m) => m.write_byte(address, value),
            Device::Screen(s) => s.write_byte(address, value),
        }
    }

    fn write_half_word(&mut self, address: u32, value: [u8; 2]) -> (r: Result<(), VmError>) {
        match self {
            Device::Memory(m) => m.write_half_word(address, value),
            Device::Screen(s) => s.write_half_word(address, value),
        }
    }

    fn write_word(&mut self, address: u32, value: [u8; 4]) -> (r: Result<(), VmError>) {
        match self {
            Device::Memory(m) => m.write_word(address, value),
            Device::Screen(s) => s.write_word(address, value),
        }
    }
}

/// A contiguous address range mapped to one backing device.
pub struct Region {
    device: Device,
    start: u32,
    end: u32,
    remap: bool,
    handle: u64,
}

/// A region as mathematics: its bounds, translation mode, handle and
/// the contents of its device.
#[verifier::ext_equal]
pub struct RegionView {
    pub dev: DevView,
    pub start: u32,
    pub end: u32,
    pub remap: bool,
    pub handle: u64,
}

impl View for Region {
    type V = RegionView;

    closed spec fn view(&self) -> RegionView {
        RegionView {
            dev: self.device.dev(),
            start: self.start,
            end: self.end,
            remap: self.remap,
            handle: self.handle,
        }
    }
}

impl Region {
    /// First address the region covers.
    pub fn start(&self) -> (r: u32)
        ensures
            r == self@.start,
    {
        self.start
    }

    /// Last address the region covers, inclusive.
    pub fn end(&self) -> (r: u32)
        ensures
            r == self@.end,
    {
        self.end
    }

    /// Whether the device sees region-relative addresses.
    pub fn remap(&self) -> (r: bool)
        ensures
            r == self@.remap,
    {
        self.remap
    }

    /// The handle under which the region was mapped.
    pub fn handle(&self) -> (r: u64)
        ensures
            r == self@.handle,
    {
        self.handle
    }
}

/// Whether a region's inclusive range covers an address.
pub open spec fn region_contains(r: RegionView, address: u32) -> bool {
    r.start <= address && address <= r.end
}

/// The index of the first region in order that covers the address.
pub open spec fn resolve(regions: Seq<RegionView>, address: u32) -> Option<int>
    decreases regions.len(),
{
    if regions.len() == 0 {
        None
    } else if region_contains(regions[0], address) {
        Some(0int)
    } else {
        match resolve(regions.drop_first(), address) {
            Some(i) => Some(i + 1),
            None => None,
        }
    }
}

/// Resolution finds the first covering region, and fails exactly when
/// no region covers the address.
pub proof fn lemma_resolve(regions: Seq<RegionView>, address: u32)
    ensures
        (match resolve(regions, address) {
            Some(i) => 0 <= i < regions.len() && region_contains(regions[i], address) && (forall|
                j: int,
            |
                0 <= j < i ==> !region_contains(regions[j], address)),
            None => forall|j: int|
                0 <= j < regions.len() ==> !region_contains(regions[j], address),
        }),
    decreases regions.len(),
{
    if regions.len() == 0 {
    } else if region_contains(regions[0], address) {
    } else {
        let sub = regions.drop_first();
        lemma_resolve(sub, address);
        match resolve(sub, address) {
            Some(i) => {
                assert(sub[i] == regions[i + 1]);
                assert forall|j: int| 0 <= j < i + 1 implies !region_contains(
                    regions[j],
                    address,
                ) by {
                    if j > 0 {
                        assert(!region_contains(sub[j - 1], address));
                    }
                }
            },
            None => {
                assert forall|j: int| 0 <= j < regions.len() implies !region_contains(
                    regions[j],
                    address,
                ) by {
                    if j > 0 {
                        assert(!region_contains(sub[j - 1], address));
                    }
                }
            },
        }
    }
}

/// Conversely: a covering region that no earlier region shadows is
/// the one resolution returns.
pub proof fn lemma_resolve_first(regions: Seq<RegionView>, address: u32, i: int)
    requires
        0 <= i < regions.len(),
        region_contains(regions[i], address),
        forall|j: int| 0 <= j < i ==> !region_contains(regions[j], address),
    ensures
        resolve(regions, address) == Some(i),
    decreases i,
{
    if i == 0 {
    } else {
        assert(!region_contains(regions[0], address));
        assert(forall|j: int|
            0 <= j < regions.len() - 1 ==> regions.drop_first()[j] == regions[j + 1]);
        lemma_resolve_first(regions.drop_first(), address, i - 1);
    }
}

/// The address a resolved region's device sees.
pub open spec fn local_address(r: RegionView, address: u32) -> u32 {
    if r.remap {
        (address - r.start) as u32
    } else {
        address
    }
}

/// What reading one byte at a global address returns.
pub open spec fn mm_read_byte(regions: Seq<RegionView>, address: u32) -> Result<u8, VmError> {
    match resolve(regions, address) {
        None => Err(VmError::UnmappedAddress),
        Some(i) => dev_read_byte(regions[i].dev, local_address(regions[i], address)),
    }
}

/// What reading a half-word at a global address returns.
pub open spec fn mm_read_half(regions: Seq<RegionView>, address: u32) -> Result<Seq<u8>, VmError> {
    match resolve(regions, address) {
        None => Err(VmError::UnmappedAddress),
        Some(i) => dev_read_half(regions[i].dev, local_address(regions[i], address)),
    }
}

/// What reading a word at a global address returns.
pub open spec fn mm_read_word(regions: Seq<RegionView>, address: u32) -> Result<Seq<u8>, VmError> {
    match resolve(regions, address) {
        None => Err(VmError::UnmappedAddress),
        Some(i) => dev_read_word(regions[i].dev, local_address(regions[i], address)),
    }
}

/// What writing one byte at a global address does to the regions.
pub open spec fn mm_write_byte(regions: Seq<RegionView>, address: u32, value: u8) -> Result<
    Seq<RegionView>,
    VmError,
> {
    match resolve(regions, address) {
        None => Err(VmError::UnmappedAddress),
        Some(i) => match dev_write_byte(
            regions[i].dev,
            local_address(regions[i], address),
            value,
        ) {
            Ok(d) => Ok(regions.update(i, (RegionView { dev: d, ..regions[i] }))),
            Err(e) => Err(e),
        },
    }
}

/// What writing a half-word at a global address does to the regions.
pub open spec fn mm_write_half(regions: Seq<RegionView>, address: u32, b0: u8, b1: u8) -> Result<
    Seq<RegionView>,
    VmError,
> {
    match resolve(regions, address) {
        None => Err(VmError::UnmappedAddress),
        Some(i) => match dev_write_half(
            regions[i].dev,
            local_address(regions[i], address),
            b0,
            b1,
        ) {
            Ok(d) => Ok(regions.update(i, (RegionView { dev: d, ..regions[i] }))),
            Err(e) => Err(e),
        },
    }
}

/// What writing a word at a global address does to the regions.
pub open spec fn mm_write_word(
    regions: Seq<RegionView>,
    address: u32,
    b0: u8,
    b1: u8,
    b2: u8,
    b3: u8,
) -> Result<Seq<RegionView>, VmError> {
    match resolve(regions, address) {
        None => Err(VmError::UnmappedAddress),
        Some(i) => match dev_write_word(
            regions[i].dev,
            local_address(regions[i], address),
            b0,
            b1,
            b2,
            b3,
        ) {
            Ok(d) => Ok(regions.update(i, (RegionView { dev: d, ..regions[i] }))),
            Err(e) => Err(e),
        },
    }
}

/// The regions left after unmapping a handle, order preserved.
pub open spec fn without_handle(regions: Seq<RegionView>, handle: u64) -> Seq<RegionView>
    decreases regions.len(),
{
    if regions.len() == 0 {
        Seq::empty()
    } else {
        let rest = without_handle(regions.drop_first(), handle);
        if regions[0].handle == handle {
            rest
        } else {
            seq![regions[0]] + rest
        }
    }
}

/// The view of a sequence of regions.
pub open spec fn regions_view(regions: Seq<Region>) -> Seq<RegionView> {
    Seq::new(regions.len(), |i: int| regions[i]@)
}

/// The mapper itself: the ordered regions, newest first, and the next
/// handle to hand out.
pub struct MemoryMapper {
    regions: Vec<Region>,
    next_handle: u64,
}

impl View for MemoryMapper {
    type V = Seq<RegionView>;

    closed spec fn view(&self) -> Seq<RegionView> {
        regions_view(self.regions@)
    }
}

impl MemoryMapper {
    /// The handle the next call to `map` will hand out.
    pub closed spec fn fresh_handle(&self) -> u64 {
        self.next_handle
    }

    pub fn new() -> (r: Self)
        ensures
            r@ == Seq::<RegionView>::empty(),
            r.fresh_handle() == 0,
    {
        let r = MemoryMapper { regions: Vec::new(), next_handle: 0 };
        proof {
            assert(r@ =~= Seq::<RegionView>::empty());
        }
        r
    }

    /// Map a device over `[start, end]`, ahead of every earlier
    /// region, so that it shadows them on the overlap. Returns the
    /// handle under which the region can be unmapped.
    pub fn map(&mut self, device: Device, start: u32, end: u32, remap: bool) -> (handle: u64)
        requires
            old(self).fresh_handle() < u64::MAX,
        ensures
            handle == old(self).fresh_handle(),
            final(self).fresh_handle() == old(self).fresh_handle() + 1,
            final(self)@ == (seq![
                (RegionView { dev: device.dev(), start, end, remap, handle: old(
                    self,
                ).fresh_handle() }),
            ] + old(self)@),
    {
        let handle = self.next_handle;
        let region = Region { device, start, end, remap, handle };
        self.next_handle = handle + 1;
        self.regions.insert(0, region);
        proof {
            assert(self@ =~= (seq![
                (RegionView { dev: device.dev(), start, end, remap, handle }),
            ] + old(self)@));
        }
        handle
    }

    /// Remove the region mapped under the given handle, keeping the
    /// order of the rest.
    pub fn unmap(&mut self, handle: u64)
        ensures
            final(self)@ == without_handle(old(self)@, handle),
            final(self).fresh_handle() == old(self).fresh_handle(),
    {
        let ghost orig = self@;
        let mut kept: Vec<Region> = Vec::new();
        proof {
            assert(regions_view(self.regions@) =~= orig.take(self.regions@.len() as int));
            assert(regions_view(kept@) =~= without_handle(orig.skip(self.regions@.len() as int),
                handle));
        }
        while self.regions.len() > 0
            invariant
                self.regions@.len() <= orig.len(),
                regions_view(self.regions@) == orig.take(self.regions@.len() as int),
                regions_view(kept@) == without_handle(orig.skip(self.regions@.len() as int),
                handle),
                self.next_handle == old(self).next_handle,
            decreases self.regions.len(),
        {
            let ghost m = self.regions@.len() as int;
            let ghost prev = self.regions@;
            let r = match self.regions.pop() {
                Some(r) => r,
                None => {
                    return ;
                },
            };
            proof {
                assert(r == prev[m - 1]);
                assert(regions_view(prev)[m - 1] == orig.take(m)[m - 1]);
                assert(r@ == orig[m - 1]);
                assert(orig.skip(m - 1).drop_first() =~= orig.skip(m));
                assert(orig.skip(m - 1)[0] == orig[m - 1]);
                assert(regions_view(self.regions@) =~= orig.take(m - 1));
            }
            if r.handle != handle {
                self.regions_prepend(&mut kept, r);
                proof {
                    assert(regions_view(kept@) =~= (seq![orig[m - 1]] + without_handle(orig.skip(m),
                        handle)));
                }
            }
            proof {
                assert(regions_view(kept@) =~= without_handle(orig.skip(m - 1), handle));
            }
        }
        self.regions = kept;
        proof {
            assert(orig.skip(0) =~= orig);
        }
    }

    /// Helper for `unmap`: put a region back at the front of the kept
    /// list.
    fn regions_prepend(&self, kept: &mut Vec<Region>, region: Region)
        ensures
            final(kept)@ == (seq![region] + old(kept)@),
    {
        kept.insert(0, region);
        proof {
            assert(kept@ =~= (seq![region] + old(kept)@));
        }
    }

    /// The position of the first region that covers the address.
    fn region_index(&self, address: u32) -> (r: Result<usize, VmError>)
        ensures
            (match resolve(self@, address) {
                Some(i) => r matches Ok(k) && k as int == i,
                None => r matches Err(e) && e == VmError::UnmappedAddress,
            }),
    {
        let n = self.regions.len();
        let mut i: usize = 0;
        while i < n
            invariant
                n == self.regions@.len(),
                i <= n,
                forall|j: int| 0 <= j < i ==> !region_contains(self@[j], address),
            decreases n - i,
        {
            let covers = self.regions[i].start <= address && address <= self.regions[i].end;
            if covers {
                proof {
                    lemma_resolve_first(self@, address, i as int);
                }
                return Ok(i);
            }
            i += 1;
        }
        proof {
            lemma_resolve(self@, address);
        }
        Err(VmError::UnmappedAddress)
    }

    /// The first region that covers the address, or the fatal
    /// unmapped-address condition.
    pub fn find_region(&self, address: u32) -> (r: Result<&Region, VmError>)
        ensures
            (match resolve(self@, address) {
                Some(i) => r matches Ok(region) && region@ == self@[i],
                None => r matches Err(e) && e == VmError::UnmappedAddress,
            }),
    {
        match self.region_index(address) {
            Ok(i) => {
                proof {
                    lemma_resolve(self@, address);
                }
                Ok(&self.regions[i])
            },
            Err(e) => Err(e),
        }
    }

    /// The position of the first region that covers the address, for
    /// callers that go on to mutate it.
    pub fn find_mut_region(&mut self, address: u32) -> (r: Result<usize, VmError>)
        ensures
            final(self)@ == old(self)@,
            final(self).fresh_handle() == old(self).fresh_handle(),
            (match resolve(old(self)@, address) {
                Some(i) => r matches Ok(k) && k as int == i,
                None => r matches Err(e) && e == VmError::UnmappedAddress,
            }),
    {
        self.region_index(address)
    }

    /// The address the resolved region's device sees: region-relative
    /// when the region asks for remapping, the raw address otherwise.
    fn remap_address(region: &Region, address: u32) -> (r: u32)
        requires
            region@.remap ==> region@.start <= address,
        ensures
            r == local_address(region@, address),
    {
        if region.remap {
            address - region.start
        } else {
            address
        }
    }

    pub fn get_byte(&self, address: u32) -> (r: Result<[u8; 1], VmError>)
        ensures
            (match mm_read_byte(self@, address) {
                Ok(b) => r matches Ok(bytes) && bytes@ == seq![b],
                Err(e) => r matches Err(e2) && e2 == e,
            }),
    {
        let i = match self.region_index(address) {
            Ok(i) => i,
            Err(e) => {
                return Err(e);
            },
        };
        proof {
            lemma_resolve(self@, address);
        }
        let region = &self.regions[i];
        let local = MemoryMapper::remap_address(region, address);
        region.device.get_byte(local)
    }

    pub fn get_half_word(&self, address: u32) -> (r: Result<[u8; 2], VmError>)
        ensures
            (match mm_read_half(self@, address) {
                Ok(s) => r matches Ok(bytes) && bytes@ == s,
                Err(e) => r matches Err(e2) && e2 == e,
            }),
    {
        let i = match self.region_index(address) {
            Ok(i) => i,
            Err(e) => {
                return Err(e);
            },
        };
        proof {
            lemma_resolve(self@, address);
        }
        let region = &self.regions[i];
        let local = MemoryMapper::remap_address(region, address);
        region.device.get_half_word(local)
    }

    pub fn get_word(&self, address: u32) -> (r: Result<[u8; 4], VmError>)
        ensures
            (match mm_read_word(self@, address) {
                Ok(s) => r matches Ok(bytes) && bytes@ == s,
                Err(e) => r matches Err(e2) && e2 == e,
            }),
    {
        let i = match self.region_index(address) {
            Ok(i) => i,
            Err(e) => {
                return Err(e);
            },
        };
        proof {
            lemma_resolve(self@, address);
        }
        let region = &self.regions[i];
        let local = MemoryMapper::remap_address(region, address);
        region.device.get_word(local)
    }

    pub fn write_byte(&mut self, address: u32, value: [u8; 1]) -> (r: Result<(), VmError>)
        ensures
            final(self).fresh_handle() == old(self).fresh_handle(),
            (match mm_write_byte(old(self)@, address, value@[0]) {
                Ok(m) => r matches Ok(u) && final(self)@ == m,
                Err(e) => r matches Err(e2) && e2 == e && final(self)@ == old(self)@,
            }),
    {
        let i = match self.region_index(address) {
            Ok(i) => i,
            Err(e) => {
                return Err(e);
            },
        };
        proof {
            lemma_resolve(self@, address);
        }
        let ghost pre = self@;
        let mut region = self.regions.remove(i);
        let local = MemoryMapper::remap_address(&region, address);
        let res = region.device.write_byte(local, value);
        self.regions.insert(i, region);
        proof {
            Self::lemma_put_back(pre, self@, region@, i as int);
        }
        res
    }

    pub fn write_half_word(&mut self, address: u32, value: [u8; 2]) -> (r: Result<(), VmError>)
        ensures
            final(self).fresh_handle() == old(self).fresh_handle(),
            (match mm_write_half(old(self)@, address, value@[0], value@[1]) {
                Ok(m) => r matches Ok(u) && final(self)@ == m,
                Err(e) => r matches Err(e2) && e2 == e && final(self)@ == old(self)@,
            }),
    {
        let i = match self.region_index(address) {
            Ok(i) => i,
            Err(e) => {
                return Err(e);
            },
        };
        proof {
            lemma_resolve(self@, address);
        }
        let ghost pre = self@;
        let mut region = self.regions.remove(i);
        let local = MemoryMapper::remap_address(&region, address);
        let res = region.device.write_half_word(local, value);
        self.regions.insert(i, region);
        proof {
            Self::lemma_put_back(pre, self@, region@, i as int);
        }
        res
    }

    pub fn write_word(&mut self, address: u32, value: [u8; 4]) -> (r: Result<(), VmError>)
        ensures
            final(self).fresh_handle() == old(self).fresh_handle(),
            (match mm_write_word(old(self)@, address, value@[0], value@[1], value@[2], value@[3]) {
                Ok(m) => r matches Ok(u) && final(self)@ == m,
                Err(e) => r matches Err(e2) && e2 == e && final(self)@ == old(self)@,
            }),
    {
        let i = match self.region_index(address) {
            Ok(i) => i,
            Err(e) => {
                return Err(e);
            },
        };
        proof {
            lemma_resolve(self@, address);
        }
        let ghost pre = self@;
        let mut region = self.regions.remove(i);
        let local = MemoryMapper::remap_address(&region, address);
        let res = region.device.write_word(local, value);
        self.regions.insert(i, region);
        proof {
            Self::lemma_put_back(pre, self@, region@, i as int);
        }
        res
    }

    /// Removing a region, changing its device, and putting it back at
    /// the same position updates exactly that position of the view.
    proof fn lemma_put_back(pre: Seq<RegionView>, post: Seq<RegionView>, r: RegionView, i: int)
        requires
            0 <= i < pre.len(),
            post =~= pre.remove(i).insert(i, r),
            r.start == pre[i].start,
            r.end == pre[i].end,
            r.remap == pre[i].remap,
            r.handle == pre[i].handle,
        ensures
            post =~= pre.update(i, (RegionView { dev: r.dev, ..pre[i] })),
            r.dev == pre[i].dev ==> post =~= pre,
    {
        assert(post =~= pre.update(i, (RegionView { dev: r.dev, ..pre[i] })));
        if r.dev == pre[i].dev {
            assert(post =~= pre);
        }
    }
}

/// Resolution looks only at region bounds: two region lists with the
/// same bounds at each position resolve every address alike.
pub proof fn lemma_resolve_same_bounds(r1: Seq<RegionView>, r2: Seq<RegionView>, address: u32)
    requires
        r1.len() == r2.len(),
        forall|j: int|
            0 <= j < r1.len() ==> #[trigger] r1[j].start == r2[j].start && r1[j].end == r2[j].end,
    ensures
        resolve(r1, address) == resolve(r2, address),
    decreases r1.len(),
{
    if r1.len() == 0 {
    } else {
        assert(r1[0].start == r2[0].start && r1[0].end == r2[0].end);
        assert(forall|j: int|
            0 <= j < r1.len() - 1 ==> r1.drop_first()[j] == r1[j + 1] && r2.drop_first()[j] == r2[j
                + 1]);
        lemma_resolve_same_bounds(r1.drop_first(), r2.drop_first(), address);
    }
}

/// Round trip: writing a word and then reading a word at the same
/// address returns the identical four bytes, whenever the address
/// resolves to a memory-backed region and the write succeeds.
pub proof fn lemma_word_round_trip(
    regions: Seq<RegionView>,
    address: u32,
    b0: u8,
    b1: u8,
    b2: u8,
    b3: u8,
)
    requires
        resolve(regions, address) is Some,
        regions[resolve(regions, address)->Some_0].dev is Mem,
        mm_write_word(regions, address, b0, b1, b2, b3) is Ok,
    ensures
        mm_read_word(mm_write_word(regions, address, b0, b1, b2, b3)->Ok_0, address) == Ok::<
            Seq<u8>,
            VmError,
        >(seq![b0, b1, b2, b3]),
{
    let i = resolve(regions, address)->Some_0;
    lemma_resolve(regions, address);
    let la = local_address(regions[i], address);
    let bytes = regions[i].dev->Mem_bytes;
    let written = bytes.update(la as int, b0).update(la + 1, b1).update(la + 2, b2).update(
        la + 3,
        b3,
    );
    let rs2 = mm_write_word(regions, address, b0, b1, b2, b3)->Ok_0;
    assert(rs2 == regions.update(i, (RegionView { dev: DevView::Mem { bytes: written }, ..regions[i] })));
    assert(forall|j: int|
        0 <= j < regions.len() ==> #[trigger] regions[j].start == rs2[j].start && regions[j].end
            == rs2[j].end);
    lemma_resolve_same_bounds(regions, rs2, address);
    assert(dev_read_word(rs2[i].dev, la) == Ok::<Seq<u8>, VmError>(
        seq![written[la as int], written[la + 1], written[la + 2], written[la + 3]],
    ));
    assert(seq![written[la as int], written[la + 1], written[la + 2], written[la + 3]] =~= seq![
        b0,
        b1,
        b2,
        b3,
    ]);
}

/// The last-mapped region wins: after mapping region A and then
/// region B, both covering an address, the address resolves to B,
/// which stands first in order.
pub proof fn lemma_last_mapped_wins(
    rest: Seq<RegionView>,
    a: RegionView,
    b: RegionView,
    address: u32,
)
    requires
        region_contains(a, address),
        region_contains(b, address),
    ensures
        resolve(seq![b] + (seq![a] + rest), address) == Some(0int),
        (seq![b] + (seq![a] + rest))[0] == b,
{
    assert((seq![b] + (seq![a] + rest))[0] == b);
    assert((seq![b] + (seq![a] + rest)).len() > 0);
}

/// The rendering actions a region's device holds; RAM holds none.
pub open spec fn region_actions(r: RegionView) -> Seq<ScreenAction> {
    match r.dev {
        DevView::Screen { actions } => actions,
        DevView::Mem { .. } => Seq::empty(),
    }
}

/// Every pending rendering action, in region order.
pub open spec fn all_actions(regions: Seq<RegionView>) -> Seq<ScreenAction>
    decreases regions.len(),
{
    if regions.len() == 0 {
        Seq::empty()
    } else {
        region_actions(regions[0]) + all_actions(regions.drop_first())
    }
}

/// A region with its action queue emptied; RAM is untouched.
pub open spec fn drained_region(r: RegionView) -> RegionView {
    match r.dev {
        DevView::Screen { .. } => RegionView {
            dev: DevView::Screen { actions: Seq::empty() },
            ..r
        },
        DevView::Mem { .. } => r,
    }
}

/// All regions with their action queues emptied.
pub open spec fn drained(regions: Seq<RegionView>) -> Seq<RegionView> {
    Seq::new(regions.len(), |i: int| drained_region(regions[i]))
}

/// Taking one more region's actions extends the collected sequence by
/// exactly that region's queue.
proof fn lemma_all_actions_snoc(regions: Seq<RegionView>, i: int)
    requires
        0 <= i < regions.len(),
    ensures
        all_actions(regions.take(i + 1)) == all_actions(regions.take(i)) + region_actions(
            regions[i],
        ),
    decreases i,
{
    if i == 0 {
        assert(regions.take(1).drop_first() =~= Seq::<RegionView>::empty());
        assert(regions.take(0) =~= Seq::<RegionView>::empty());
        assert(regions.take(1)[0] == regions[0]);
        assert(all_actions(regions.take(i + 1)) =~= all_actions(regions.take(i)) + region_actions(
            regions[i],
        ));
    } else {
        let sub = regions.drop_first();
        lemma_all_actions_snoc(sub, i - 1);
        assert(regions.take(i + 1).drop_first() =~= sub.take(i));
        assert(regions.take(i).drop_first() =~= sub.take(i - 1));
        assert(regions.take(i + 1)[0] == regions[0]);
        assert(regions.take(i)[0] == regions[0]);
        assert(sub[i - 1] == regions[i]);
        assert(all_actions(regions.take(i + 1)) =~= all_actions(regions.take(i)) + region_actions(
            regions[i],
        ));
    }
}

impl MemoryMapper {
    /// Drain every screen device's pending rendering actions, in
    /// region order. RAM contents, region bounds and handles stay as
    /// they are.
    pub fn take_screen_actions(&mut self) -> (r: Vec<ScreenAction>)
        ensures
            r@ == all_actions(old(self)@),
            final(self)@ == drained(old(self)@),
            final(self).fresh_handle() == old(self).fresh_handle(),
    {
        let mut out: Vec<ScreenAction> = Vec::new();
        let n = self.regions.len();
        let mut i: usize = 0;
        proof {
            assert(old(self)@.take(0) =~= Seq::<RegionView>::empty());
        }
        while i < n
            invariant
                n == self.regions@.len(),
                i <= n,
                self@.len() == old(self)@.len(),
                out@ == all_actions(old(self)@.take(i as int)),
                forall|j: int| 0 <= j < i ==> self@[j] == drained_region(old(self)@[j]),
                forall|j: int| i <= j < n ==> self@[j] == old(self)@[j],
                self.next_handle == old(self).next_handle,
            decreases n - i,
        {
            let ghost prev = self@;
            let mut region = self.regions.remove(i);
            proof {
                assert(region@ == prev[i as int]);
            }
            match &mut region.device {
                Device::Screen(s) => {
                    let mut acts = s.take_actions();
                    out.append(&mut acts);
                },
                Device::Memory(_) => {},
            }
            self.regions.insert(i, region);
            proof {
                assert(region@ == drained_region(old(self)@[i as int]));
                assert(region_actions(old(self)@[i as int]) == (match old(self)@[i as int].dev {
                    DevView::Screen { actions } => actions,
                    DevView::Mem { .. } => Seq::<ScreenAction>::empty(),
                }));
                lemma_all_actions_snoc(old(self)@, i as int);
                assert(out@ =~= all_actions(old(self)@.take(i as int + 1)));
                assert(self@ =~= prev.update(i as int, region@));
            }
            i += 1;
        }
        proof {
            assert(old(self)@.take(n as int) =~= old(self)@);
            assert(self@ =~= drained(old(self)@));
        }
        out
    }
}

} // verus!
