use crate::bytes::{in_bounds, le_u16, le_u32, le_u64, read_u16_at, read_u32_at, read_u64_at};
use crate::errors::ReconstructError;
use vstd::prelude::*;

verus! {

/// One entry of the section table of a PE image.
#[derive(Clone, Copy, Debug)]
pub struct PeSection {
    pub virtual_address: u32,
    pub virtual_size: u32,
    pub raw_offset: u32,
    pub raw_size: u32,
    pub characteristics: u32,
}

/// The parts of a PE32+ image that address translation needs.
#[derive(Clone, Debug)]
pub struct PeImage {
    pub image_base: u64,
    pub sections: Vec<PeSection>,
}

impl PeSection {
    /// Whether the section holds code (`IMAGE_SCN_MEM_EXECUTE`).
    pub open spec fn is_executable(self) -> bool {
        self.characteristics & 0x2000_0000 != 0
    }

    /// Whether the section can be read (`IMAGE_SCN_MEM_READ`).
    pub open spec fn is_readable(self) -> bool {
        self.characteristics & 0x4000_0000 != 0
    }

    /// The larger of the virtual and the raw size.
    pub open spec fn mapped_size(self) -> u32 {
        if self.virtual_size >= self.raw_size {
            self.virtual_size
        } else {
            self.raw_size
        }
    }

    /// Whether the file offset `offset` lies in the raw data of the section.
    pub open spec fn holds_file_offset(self, offset: int) -> bool {
        self.raw_offset <= offset < self.raw_offset + self.raw_size
    }

    /// Whether the end of the raw data of the section fits in a `usize`.
    pub open spec fn raw_end_fits(self) -> bool {
        self.raw_offset + self.raw_size <= usize::MAX
    }

    /// The raw file range `(start, end)` of the section.
    pub open spec fn raw_range(self) -> (usize, usize) {
        (self.raw_offset as usize, (self.raw_offset + self.raw_size) as usize)
    }

    /// Whether the relative virtual address `rva` lies in the raw-backed part of the section.
    pub open spec fn holds_rva(self, rva: int) -> bool {
        self.virtual_address <= rva < self.virtual_address + self.raw_size
    }
}

/// Whether `image` is what `PeImage::parse` reads from `data`: its image base and every
/// section record of its section table.
pub open spec fn is_parsed_image(image: PeImage, data: Seq<u8>) -> bool {
    &&& pe_header_error(data) is None
    &&& image.image_base == le_u64(data, pe_offset(data) + 48)
    &&& image.sections@.len() == declared_section_count(data)
    &&& forall|i: int|
        0 <= i < declared_section_count(data) ==> section_record_fits(data, i)
            && #[trigger] image.sections@[i] == section_at(data, section_table_offset(data) + 40 * i)
}

/// Whether `e` reports the first section record of `data` that runs past its end.
pub open spec fn is_section_error(data: Seq<u8>, e: ReconstructError) -> bool {
    exists|i: int|
        0 <= i < declared_section_count(data) && !section_record_fits(data, i) && (forall|j: int|
            0 <= j < i ==> section_record_fits(data, j)) && e == ReconstructError::TruncatedPe(
            first_truncated_field(data, section_table_offset(data) + 40 * i) as u64,
        )
}

/// The first of the first `n` sections whose raw-backed range holds `rva`.
pub open spec fn first_holding(sections: Seq<PeSection>, rva: int, n: nat) -> Option<int>
    decreases n,
{
    if n == 0 {
        None
    } else {
        match first_holding(sections, rva, (n - 1) as nat) {
            Some(i) => Some(i),
            None => if sections[n - 1].holds_rva(rva) {
                Some(n - 1)
            } else {
                None
            },
        }
    }
}

proof fn lemma_first_holding_stays(sections: Seq<PeSection>, rva: int, n: nat, m: nat)
    requires
        n <= m,
        first_holding(sections, rva, n) is Some,
    ensures
        first_holding(sections, rva, m) == first_holding(sections, rva, n),
    decreases m - n,
{
    if n < m {
        lemma_first_holding_stays(sections, rva, n, (m - 1) as nat);
    }
}

/// The first of the first `n` sections whose raw data holds the file offset `offset`.
pub open spec fn first_holding_offset(sections: Seq<PeSection>, offset: int, n: nat) -> Option<int>
    decreases n,
{
    if n == 0 {
        None
    } else {
        match first_holding_offset(sections, offset, (n - 1) as nat) {
            Some(i) => Some(i),
            None => if sections[n - 1].holds_file_offset(offset) {
                Some(n - 1)
            } else {
                None
            },
        }
    }
}

proof fn lemma_first_holding_offset_stays(sections: Seq<PeSection>, offset: int, n: nat, m: nat)
    requires
        n <= m,
        first_holding_offset(sections, offset, n) is Some,
    ensures
        first_holding_offset(sections, offset, m) == first_holding_offset(sections, offset, n),
    decreases m - n,
{
    if n < m {
        lemma_first_holding_offset_stays(sections, offset, n, (m - 1) as nat);
    }
}

/// The section record that starts at `off` in `s`.
pub open spec fn section_at(s: Seq<u8>, off: int) -> PeSection {
    PeSection {
        virtual_size: le_u32(s, off + 8),
        virtual_address: le_u32(s, off + 12),
        raw_size: le_u32(s, off + 16),
        raw_offset: le_u32(s, off + 20),
        characteristics: le_u32(s, off + 36),
    }
}

/// Where the `PE\0\0` signature of `s` is said to be.
pub open spec fn pe_offset(s: Seq<u8>) -> int {
    le_u32(s, 0x3c) as int
}

/// Where the section table of `s` starts.
pub open spec fn section_table_offset(s: Seq<u8>) -> int {
    pe_offset(s) + 24 + le_u16(s, pe_offset(s) + 20)
}

/// The number of sections that `s` declares.
pub open spec fn declared_section_count(s: Seq<u8>) -> int {
    le_u16(s, pe_offset(s) + 6) as int
}

/// The first field offset, among those of a section record at `off`, that runs past the end of `s`.
pub open spec fn first_truncated_field(s: Seq<u8>, off: int) -> int {
    if !in_bounds(s, off + 8, 4) {
        off + 8
    } else if !in_bounds(s, off + 12, 4) {
        off + 12
    } else if !in_bounds(s, off + 16, 4) {
        off + 16
    } else if !in_bounds(s, off + 20, 4) {
        off + 20
    } else {
        off + 36
    }
}

/// Whether the headers of `s` before the section table are those of a PE32+ image.
pub open spec fn pe_headers_valid(s: Seq<u8>) -> bool {
    &&& s.len() >= 0x40
    &&& s[0] == 0x4d && s[1] == 0x5a
    &&& in_bounds(s, pe_offset(s), 4)
    &&& s[pe_offset(s)] == 0x50 && s[pe_offset(s) + 1] == 0x45
    &&& s[pe_offset(s) + 2] == 0 && s[pe_offset(s) + 3] == 0
    &&& in_bounds(s, pe_offset(s) + 6, 2)
    &&& in_bounds(s, pe_offset(s) + 20, 2)
    &&& in_bounds(s, pe_offset(s) + 24, 2)
    &&& le_u16(s, pe_offset(s) + 24) == 0x20b
    &&& in_bounds(s, pe_offset(s) + 48, 8)
}

/// The error that parsing the headers of `s` before the section table reports, if any.
pub open spec fn pe_header_error(s: Seq<u8>) -> Option<ReconstructError> {
    let po = pe_offset(s);
    if s.len() < 0x40 || s[0] != 0x4d || s[1] != 0x5a {
        Some(ReconstructError::NotPeImage)
    } else if !(in_bounds(s, po, 4) && s[po] == 0x50 && s[po + 1] == 0x45 && s[po + 2] == 0 && s[po
        + 3] == 0) {
        Some(ReconstructError::InvalidPeSignature)
    } else if !in_bounds(s, po + 6, 2) {
        Some(ReconstructError::TruncatedPe((po + 6) as u64))
    } else if !in_bounds(s, po + 20, 2) {
        Some(ReconstructError::TruncatedPe((po + 20) as u64))
    } else if !in_bounds(s, po + 24, 2) {
        Some(ReconstructError::TruncatedPe((po + 24) as u64))
    } else if le_u16(s, po + 24) != 0x20b {
        Some(ReconstructError::NotPe32Plus)
    } else if !in_bounds(s, po + 48, 8) {
        Some(ReconstructError::TruncatedPe((po + 48) as u64))
    } else {
        None
    }
}

/// Whether the section record `index` of `s` lies wholly in `s`.
pub open spec fn section_record_fits(s: Seq<u8>, index: int) -> bool {
    in_bounds(s, section_table_offset(s) + 40 * index, 40)
}

impl PeImage {
    /// The virtual address at which `section` starts (wrapping as the released tool does).
    pub open spec fn section_start(self, section: PeSection) -> u64 {
        self.image_base.wrapping_add(section.virtual_address as u64)
    }

    /// The virtual address at which `section` ends.
    pub open spec fn section_end(self, section: PeSection) -> u64 {
        self.section_start(section).wrapping_add(section.mapped_size() as u64)
    }

    /// Whether `address` lies in the executable section `i`.
    pub open spec fn executable_section_holds(self, i: int, address: u64) -> bool {
        &&& 0 <= i < self.sections@.len()
        &&& self.sections@[i].is_executable()
        &&& self.section_start(self.sections@[i]) <= address < self.section_end(self.sections@[i])
    }

    /// Whether `minimum` and `maximum` are the lowest start and the highest end of the
    /// executable sections.
    pub open spec fn is_executable_bounds(&self, minimum: u64, maximum: u64) -> bool {
        &&& exists|i: int|
            0 <= i < self.sections@.len() && (#[trigger] self.sections@[i]).is_executable()
                && self.section_start(self.sections@[i]) == minimum
        &&& exists|i: int|
            0 <= i < self.sections@.len() && (#[trigger] self.sections@[i]).is_executable()
                && self.section_end(self.sections@[i]) == maximum
        &&& forall|i: int|
            0 <= i < self.sections@.len() && (#[trigger] self.sections@[i]).is_executable()
                ==> minimum <= self.section_start(self.sections@[i]) && self.section_end(
                self.sections@[i],
            ) <= maximum
    }

    /// The lowest start and the highest end of the executable sections; `None` when no
    /// section is executable.
    pub open spec fn executable_bounds(&self) -> Option<(u64, u64)> {
        if exists|i: int| 0 <= i < self.sections@.len() && (#[trigger] self.sections@[i]).is_executable() {
            Some(choose|b: (u64, u64)| self.is_executable_bounds(b.0, b.1))
        } else {
            None
        }
    }

    /// The executable bounds are unique.
    pub proof fn lemma_executable_bounds(&self, minimum: u64, maximum: u64)
        requires
            self.is_executable_bounds(minimum, maximum),
        ensures
            self.executable_bounds() == Some((minimum, maximum)),
    {
        let i = choose|i: int|
            0 <= i < self.sections@.len() && (#[trigger] self.sections@[i]).is_executable()
                && self.section_start(self.sections@[i]) == minimum;
        assert(self.is_executable_bounds((minimum, maximum).0, (minimum, maximum).1));
        let b = choose|b: (u64, u64)| self.is_executable_bounds(b.0, b.1);
        let j = choose|j: int|
            0 <= j < self.sections@.len() && (#[trigger] self.sections@[j]).is_executable()
                && self.section_start(self.sections@[j]) == b.0;
        let k = choose|k: int|
            0 <= k < self.sections@.len() && (#[trigger] self.sections@[k]).is_executable()
                && self.section_end(self.sections@[k]) == b.1;
        let l = choose|l: int|
            0 <= l < self.sections@.len() && (#[trigger] self.sections@[l]).is_executable()
                && self.section_end(self.sections@[l]) == maximum;
        assert(b.0 <= self.section_start(self.sections@[i]));
        assert(minimum <= self.section_start(self.sections@[j]));
        assert(self.section_end(self.sections@[l]) <= b.1);
        assert(self.section_end(self.sections@[k]) <= maximum);
    }

    /// The lowest start and the highest end of the executable sections.
    pub fn executable_va_range(&self) -> (r: Result<(u64, u64), ReconstructError>)
        ensures
            r is Err <==> (forall|i: int|
                0 <= i < self.sections@.len() ==> !(#[trigger] self.sections@[i]).is_executable()),
            r matches Err(e) ==> e == ReconstructError::NoExecutableSections,
            r matches Ok((minimum, maximum)) ==> {
                &&& exists|i: int|
                    0 <= i < self.sections@.len() && (#[trigger] self.sections@[i]).is_executable()
                        && self.section_start(self.sections@[i]) == minimum
                &&& exists|i: int|
                    0 <= i < self.sections@.len() && (#[trigger] self.sections@[i]).is_executable()
                        && self.section_end(self.sections@[i]) == maximum
                &&& forall|i: int|
                    0 <= i < self.sections@.len() && (#[trigger] self.sections@[i]).is_executable()
                        ==> minimum <= self.section_start(self.sections@[i]) && self.section_end(
                        self.sections@[i],
                    ) <= maximum
            },
    {
        let mut found = false;
        let mut minimum: u64 = 0;
        let mut maximum: u64 = 0;
        let mut i: usize = 0;
        while i < self.sections.len()
            invariant
                i <= self.sections@.len(),
                found <==> exists|j: int| 0 <= j < i && (#[trigger] self.sections@[j]).is_executable(),
                found ==> exists|j: int|
                    0 <= j < i && (#[trigger] self.sections@[j]).is_executable()
                        && self.section_start(self.sections@[j]) == minimum,
                found ==> exists|j: int|
                    0 <= j < i && (#[trigger] self.sections@[j]).is_executable()
                        && self.section_end(self.sections@[j]) == maximum,
                forall|j: int|
                    0 <= j < i && (#[trigger] self.sections@[j]).is_executable() ==> minimum
                        <= self.section_start(self.sections@[j]) && self.section_end(
                        self.sections@[j],
                    ) <= maximum,
            decreases self.sections@.len() - i,
        {
            let section = self.sections[i];
            if section.characteristics & 0x2000_0000 != 0 {
                let start = self.image_base.wrapping_add(section.virtual_address as u64);
                let size = if section.virtual_size >= section.raw_size {
                    section.virtual_size
                } else {
                    section.raw_size
                } as u64;
                let end = start.wrapping_add(size);
                if !found || start < minimum {
                    minimum = start;
                }
                if !found || end > maximum {
                    maximum = end;
                }
                found = true;
            }
            i = i + 1;
        }
        if !found {
            return Err(ReconstructError::NoExecutableSections);
        }
        Ok((minimum, maximum))
    }

    /// Whether `address` lies in an executable section.
    pub fn is_executable_va(&self, address: u64) -> (r: bool)
        ensures
            r <==> exists|i: int| self.executable_section_holds(i, address),
    {
        let mut i: usize = 0;
        while i < self.sections.len()
            invariant
                i <= self.sections@.len(),
                forall|j: int| 0 <= j < i ==> !self.executable_section_holds(j, address),
            decreases self.sections@.len() - i,
        {
            let section = self.sections[i];
            if section.characteristics & 0x2000_0000 != 0 {
                let start = self.image_base.wrapping_add(section.virtual_address as u64);
                let size = if section.virtual_size >= section.raw_size {
                    section.virtual_size
                } else {
                    section.raw_size
                } as u64;
                let end = start.wrapping_add(size);
                if start <= address && address < end {
                    assert(self.executable_section_holds(i as int, address));
                    return true;
                }
            }
            i = i + 1;
        }
        false
    }

    /// The virtual address of the file offset `offset`, taken from the first section whose
    /// raw data holds it.
    pub fn file_offset_to_va(&self, offset: usize) -> (r: Option<u64>)
        ensures
            r == self.va_of_offset(offset),
            r is None <==> (forall|i: int|
                0 <= i < self.sections@.len() ==> !(#[trigger] self.sections@[i]).holds_file_offset(
                    offset as int,
                )),
            r matches Some(va) ==> exists|i: int|
                0 <= i < self.sections@.len() && (#[trigger] self.sections@[i]).holds_file_offset(
                    offset as int,
                ) && (forall|j: int|
                    0 <= j < i ==> !self.sections@[j].holds_file_offset(offset as int)) && va
                    == self.section_start(self.sections@[i]).wrapping_add(
                    (offset - self.sections@[i].raw_offset) as u64,
                ),
    {
        let mut i: usize = 0;
        while i < self.sections.len()
            invariant
                i <= self.sections@.len(),
                forall|j: int|
                    0 <= j < i ==> !(#[trigger] self.sections@[j]).holds_file_offset(offset as int),
                first_holding_offset(self.sections@, offset as int, i as nat) is None,
            decreases self.sections@.len() - i,
        {
            let section = self.sections[i];
            let start = section.raw_offset as u64;
            let end = start + section.raw_size as u64;
            if start <= offset as u64 && (offset as u64) < end {
                let va = self.image_base.wrapping_add(section.virtual_address as u64).wrapping_add(
                    offset as u64 - start,
                );
                assert(self.sections@[i as int].holds_file_offset(offset as int));
                proof {
                    lemma_first_holding_offset_stays(self.sections@, offset as int, (i + 1) as nat, self.sections@.len());
                }
                return Some(va);
            }
            i = i + 1;
        }
        None
    }

    /// The virtual address of the file offset `offset`, taken from the first section whose
    /// raw data holds it.
    pub open spec fn va_of_offset(&self, offset: usize) -> Option<u64> {
        match first_holding_offset(self.sections@, offset as int, self.sections@.len()) {
            Some(i) => Some(
                self.section_start(self.sections@[i]).wrapping_add(
                    (offset - self.sections@[i].raw_offset) as u64,
                ),
            ),
            None => None,
        }
    }

    /// The file offset of the virtual address `address`, taken from the first section whose
    /// raw-backed range holds it.
    pub open spec fn file_offset_of(&self, address: u64) -> Option<usize> {
        if address < self.image_base {
            None
        } else {
            let rva = address - self.image_base;
            match first_holding(self.sections@, rva, self.sections@.len()) {
                Some(i) => Some(
                    (self.sections@[i].raw_offset + (rva - self.sections@[i].virtual_address)) as usize,
                ),
                None => None,
            }
        }
    }

    /// The file offset of the virtual address `address`, taken from the first section whose
    /// raw-backed range holds it.
    pub fn va_to_file_offset(&self, address: u64) -> (r: Option<usize>)
        ensures
            r == self.file_offset_of(address),
            r is None <==> (address < self.image_base || forall|i: int|
                0 <= i < self.sections@.len() ==> !(#[trigger] self.sections@[i]).holds_rva(
                    address - self.image_base,
                )),
            r matches Some(offset) ==> address >= self.image_base && exists|i: int|
                0 <= i < self.sections@.len() && (#[trigger] self.sections@[i]).holds_rva(
                    address - self.image_base,
                ) && (forall|j: int|
                    0 <= j < i ==> !self.sections@[j].holds_rva(address - self.image_base))
                    && offset == (self.sections@[i].raw_offset + (address - self.image_base
                    - self.sections@[i].virtual_address)) as usize,
    {
        if address < self.image_base {
            return None;
        }
        let rva = address - self.image_base;
        let mut i: usize = 0;
        while i < self.sections.len()
            invariant
                i <= self.sections@.len(),
                address >= self.image_base,
                rva == address - self.image_base,
                forall|j: int| 0 <= j < i ==> !(#[trigger] self.sections@[j]).holds_rva(rva as int),
                first_holding(self.sections@, rva as int, i as nat) is None,
            decreases self.sections@.len() - i,
        {
            let section = self.sections[i];
            let start = section.virtual_address as u64;
            let end = start + section.raw_size as u64;
            if start <= rva && rva < end {
                assert(self.sections@[i as int].holds_rva(rva as int));
                proof {
                    lemma_first_holding_stays(self.sections@, rva as int, (i + 1) as nat, self.sections@.len());
                }
                return Some((section.raw_offset as u64 + (rva - start)) as usize);
            }
            i = i + 1;
        }
        None
    }

    /// The raw file ranges of the readable sections whose end fits in a `usize`, in
    /// section order.
    pub open spec fn readable_ranges_spec(&self) -> Seq<(usize, usize)> {
        self.sections@.filter(|s: PeSection| s.is_readable() && s.raw_end_fits()).map_values(
            |s: PeSection| s.raw_range(),
        )
    }

    /// The raw file ranges of the readable sections whose end fits in a `usize`, in
    /// section order.
    pub fn readable_file_ranges(&self) -> (r: Vec<(usize, usize)>)
        ensures
            r@ == self.readable_ranges_spec(),
            r@ == self.sections@.filter(|s: PeSection| s.is_readable() && s.raw_end_fits()).map_values(
                |s: PeSection| s.raw_range(),
            ),
    {
        let mut result: Vec<(usize, usize)> = Vec::new();
        let mut i: usize = 0;
        while i < self.sections.len()
            invariant
                i <= self.sections@.len(),
                result@ == self.sections@.take(i as int).filter(
                    |s: PeSection| s.is_readable() && s.raw_end_fits(),
                ).map_values(|s: PeSection| s.raw_range()),
            decreases self.sections@.len() - i,
        {
            let section = self.sections[i];
            proof {
                assert(self.sections@.take(i + 1).drop_last() =~= self.sections@.take(i as int));
                reveal_with_fuel(Seq::<_>::filter, 1);
            }
            if section.characteristics & 0x4000_0000 != 0 {
                let start = section.raw_offset as usize;
                if let Some(end) = start.checked_add(section.raw_size as usize) {
                    result.push((start, end));
                }
            }
            proof {
                assert(self.sections@.take(i + 1).filter(
                    |s: PeSection| s.is_readable() && s.raw_end_fits(),
                ).map_values(|s: PeSection| s.raw_range()) =~= result@);
            }
            i = i + 1;
        }
        assert(self.sections@.take(self.sections@.len() as int) =~= self.sections@);
        result
    }

    /// The raw file ranges and start addresses of the executable sections whose end fits in a
    /// `usize`, in section order.
    pub open spec fn executable_ranges_spec(&self) -> Seq<(usize, usize, u64)> {
        self.sections@.filter(|s: PeSection| s.is_executable() && s.raw_end_fits()).map_values(
            |s: PeSection| (s.raw_range().0, s.raw_range().1, self.section_start(s)),
        )
    }

    /// The raw file ranges and start addresses of the executable sections whose end fits in a
    /// `usize`, in section order.
    pub fn executable_mapped_ranges(&self) -> (r: Vec<(usize, usize, u64)>)
        ensures
            r@ == self.executable_ranges_spec(),
            r@ == self.sections@.filter(|s: PeSection| s.is_executable() && s.raw_end_fits()).map_values(
                |s: PeSection| (s.raw_range().0, s.raw_range().1, self.section_start(s)),
            ),
    {
        let mut result: Vec<(usize, usize, u64)> = Vec::new();
        let mut i: usize = 0;
        while i < self.sections.len()
            invariant
                i <= self.sections@.len(),
                result@ == self.sections@.take(i as int).filter(
                    |s: PeSection| s.is_executable() && s.raw_end_fits(),
                ).map_values(|s: PeSection| (s.raw_range().0, s.raw_range().1, self.section_start(s))),
            decreases self.sections@.len() - i,
        {
            let section = self.sections[i];
            proof {
                assert(self.sections@.take(i + 1).drop_last() =~= self.sections@.take(i as int));
                reveal_with_fuel(Seq::<_>::filter, 1);
            }
            if section.characteristics & 0x2000_0000 != 0 {
                let start = section.raw_offset as usize;
                if let Some(end) = start.checked_add(section.raw_size as usize) {
                    let va = self.image_base.wrapping_add(section.virtual_address as u64);
                    result.push((start, end, va));
                }
            }
            proof {
                assert(self.sections@.take(i + 1).filter(
                    |s: PeSection| s.is_executable() && s.raw_end_fits(),
                ).map_values(|s: PeSection| (s.raw_range().0, s.raw_range().1, self.section_start(s)))
                    =~= result@);
            }
            i = i + 1;
        }
        assert(self.sections@.take(self.sections@.len() as int) =~= self.sections@);
        result
    }

    /// Parses the DOS, PE and optional headers and the section table of `data`.
    pub fn parse(data: &[u8]) -> (r: Result<Self, ReconstructError>)
        ensures
            pe_header_error(data@) matches Some(e) ==> r == Err::<Self, ReconstructError>(e),
            pe_header_error(data@) is None ==> match r {
                Ok(image) => is_parsed_image(image, data@),
                Err(e) => is_section_error(data@, e),
            },
    {
        if data.len() < 0x40 || data[0] != 0x4d || data[1] != 0x5a {
            return Err(ReconstructError::NotPeImage);
        }
        let len = data.len() as u64;
        let pe_at = read_u32_at(data, 0x3c) as u64;
        if !(pe_at + 4 <= len && data[pe_at as usize] == 0x50 && data[pe_at as usize + 1] == 0x45
            && data[pe_at as usize + 2] == 0 && data[pe_at as usize + 3] == 0) {
            return Err(ReconstructError::InvalidPeSignature);
        }
        let section_count = read_u16(data, pe_at + 6)? as u64;
        let optional_size = read_u16(data, pe_at + 20)? as u64;
        let optional = pe_at + 24;
        if read_u16(data, optional)? != 0x20b {
            return Err(ReconstructError::NotPe32Plus);
        }
        let image_base = read_u64(data, optional + 24)?;
        let section_table = optional + optional_size;
        assert(section_table == section_table_offset(data@));
        let mut sections: Vec<PeSection> = Vec::new();
        let mut index: u64 = 0;
        while index < section_count
            invariant
                index <= section_count,
                pe_header_error(data@) is None,
                len == data@.len(),
                data@.len() == data.len(),
                pe_at == pe_offset(data@),
                image_base == le_u64(data@, pe_at + 48),
                section_count == declared_section_count(data@),
                section_table == section_table_offset(data@),
                section_table <= 0x1_0000_0000 + 0x1_0000 + 24,
                section_count <= 0xffff,
                sections@.len() == index,
                forall|i: int| 0 <= i < index ==> #[trigger] section_record_fits(data@, i),
                forall|i: int|
                    0 <= i < index ==> #[trigger] sections@[i] == section_at(
                        data@,
                        section_table_offset(data@) + 40 * i,
                    ),
            decreases section_count - index,
        {
            let offset = section_table + index * 40;
            if !(offset + 40 <= len) {
                assert(!section_record_fits(data@, index as int));
                assert(offset == section_table_offset(data@) + 40 * index);
                let e = ReconstructError::TruncatedPe(first_truncated_offset(data, offset));
                assert(0 <= index < declared_section_count(data@) && !section_record_fits(
                    data@,
                    index as int,
                ) && (forall|j: int| 0 <= j < index ==> section_record_fits(data@, j)) && e
                    == ReconstructError::TruncatedPe(
                    first_truncated_field(data@, section_table_offset(data@) + 40 * index) as u64,
                ));
                return Err(e);
            }
            let at = offset as usize;
            sections.push(
                PeSection {
                    virtual_size: read_u32_at(data, at + 8),
                    virtual_address: read_u32_at(data, at + 12),
                    raw_size: read_u32_at(data, at + 16),
                    raw_offset: read_u32_at(data, at + 20),
                    characteristics: read_u32_at(data, at + 36),
                },
            );
            index = index + 1;
        }
        Ok(Self { image_base, sections })
    }
}

fn first_truncated_offset(data: &[u8], offset: u64) -> (r: u64)
    requires
        offset <= 0x2_0000_0000,
    ensures
        r == first_truncated_field(data@, offset as int),
{
    let len = data.len() as u64;
    if offset + 12 > len {
        offset + 8
    } else if offset + 16 > len {
        offset + 12
    } else if offset + 20 > len {
        offset + 16
    } else if offset + 24 > len {
        offset + 20
    } else {
        offset + 36
    }
}

fn read_u16(data: &[u8], offset: u64) -> (r: Result<u16, ReconstructError>)
    requires
        offset <= 0x2_0000_0000,
    ensures
        r == (if in_bounds(data@, offset as int, 2) {
            Ok::<u16, ReconstructError>(le_u16(data@, offset as int))
        } else {
            Err(ReconstructError::TruncatedPe(offset))
        }),
{
    if offset + 2 <= data.len() as u64 {
        Ok(read_u16_at(data, offset as usize))
    } else {
        Err(ReconstructError::TruncatedPe(offset))
    }
}

fn read_u64(data: &[u8], offset: u64) -> (r: Result<u64, ReconstructError>)
    requires
        offset <= 0x2_0000_0000,
    ensures
        r == (if in_bounds(data@, offset as int, 8) {
            Ok::<u64, ReconstructError>(le_u64(data@, offset as int))
        } else {
            Err(ReconstructError::TruncatedPe(offset))
        }),
{
    if offset + 8 <= data.len() as u64 {
        Ok(read_u64_at(data, offset as usize))
    } else {
        Err(ReconstructError::TruncatedPe(offset))
    }
}

proof fn lemma_first_holding_offset_found(sections: Seq<PeSection>, offset: int, n: nat)
    requires
        n <= sections.len(),
    ensures
        first_holding_offset(sections, offset, n) matches Some(i) ==> 0 <= i < n && sections[i].holds_file_offset(offset),
    decreases n,
{
    if n > 0 {
        lemma_first_holding_offset_found(sections, offset, (n - 1) as nat);
    }
}

proof fn lemma_first_holding_only(sections: Seq<PeSection>, rva: int, n: nat, i: int)
    requires
        n <= sections.len(),
        0 <= i < n,
        sections[i].holds_rva(rva),
        forall|j: int| 0 <= j < n && j != i ==> !(#[trigger] sections[j]).holds_rva(rva),
    ensures
        first_holding(sections, rva, n) == Some(i),
    decreases n,
{
    if i < n - 1 {
        lemma_first_holding_only(sections, rva, (n - 1) as nat, i);
    } else {
        assert forall|j: int| 0 <= j < n - 1 implies !(#[trigger] sections[j]).holds_rva(rva) by {}
        lemma_first_holding_none(sections, rva, (n - 1) as nat);
    }
}

proof fn lemma_first_holding_none(sections: Seq<PeSection>, rva: int, n: nat)
    requires
        n <= sections.len(),
        forall|j: int| 0 <= j < n ==> !(#[trigger] sections[j]).holds_rva(rva),
    ensures
        first_holding(sections, rva, n) is None,
    decreases n,
{
    if n > 0 {
        lemma_first_holding_none(sections, rva, (n - 1) as nat);
    }
}

/// When no two sections share a virtual address of their raw-backed data and the addresses of
/// the sections that hold `offset` do not run past the 64-bit range, the file offset of the
/// address of `offset` is `offset`.
pub proof fn lemma_offset_address_roundtrip(image: PeImage, offset: usize)
    requires
        forall|i: int, j: int|
            0 <= i < j < image.sections@.len() ==> (#[trigger] image.sections@[i]).virtual_address
                + image.sections@[i].raw_size <= (#[trigger] image.sections@[j]).virtual_address
                || image.sections@[j].virtual_address + image.sections@[j].raw_size
                <= image.sections@[i].virtual_address,
        forall|i: int|
            0 <= i < image.sections@.len() && (#[trigger] image.sections@[i]).holds_file_offset(offset as int)
                ==> image.image_base + image.sections@[i].virtual_address + image.sections@[i].raw_size <= u64::MAX,
    ensures
        image.va_of_offset(offset) matches Some(va) ==> image.file_offset_of(va) == Some(offset),
{
    let sections = image.sections@;
    lemma_first_holding_offset_found(sections, offset as int, sections.len());
    if let Some(i) = first_holding_offset(sections, offset as int, sections.len()) {
        let s = sections[i];
        let va = image.va_of_offset(offset)->0;
        let rva = s.virtual_address + (offset - s.raw_offset);
        assert(image.image_base + s.virtual_address + s.raw_size <= u64::MAX);
        assert(va == image.image_base + rva);
        assert(s.holds_rva(rva));
        assert forall|j: int| 0 <= j < sections.len() && j != i implies !(#[trigger] sections[j]).holds_rva(rva) by {
            if j < i {
                assert(sections[j].virtual_address + sections[j].raw_size <= sections[i].virtual_address
                    || sections[i].virtual_address + sections[i].raw_size <= sections[j].virtual_address);
            } else {
                assert(sections[i].virtual_address + sections[i].raw_size <= sections[j].virtual_address
                    || sections[j].virtual_address + sections[j].raw_size <= sections[i].virtual_address);
            }
        }
        lemma_first_holding_only(sections, rva, sections.len(), i);
    }
}

} // verus!
