use crate::bytes::{le_u32, read_u32_at};
use crate::errors::ReconstructError;
use vstd::prelude::*;

verus! {

/// The number of 32-bit values that follow an `MHY\0` signature.
pub const MHY_VALUE_COUNT: usize = 150;

/// The encoded header that `GameAssembly.dll` keeps behind an `MHY\0` signature.
#[derive(Clone, Copy, Debug)]
pub struct MhyHeader {
    pub values: [u32; 150],
    pub file_offset: usize,
}

/// Whether the bytes `MHY\0` start at `i` in `s`.
pub open spec fn has_signature_at(s: Seq<u8>, i: int) -> bool {
    &&& 0 <= i
    &&& i + 4 <= s.len()
    &&& s[i] == 0x4d
    &&& s[i + 1] == 0x48
    &&& s[i + 2] == 0x59
    &&& s[i + 3] == 0
}

/// Whether `i` is the first position of `MHY\0` in `s`.
pub open spec fn is_first_signature(s: Seq<u8>, i: int) -> bool {
    &&& has_signature_at(s, i)
    &&& forall|j: int| 0 <= j < i ==> !has_signature_at(s, j)
}

/// Whether the 150 values of a header at `off` fit in `s`.
pub open spec fn header_fits(s: Seq<u8>, off: int) -> bool {
    0 <= off && off + 4 * 150 <= s.len()
}

/// The 150 little-endian values that follow `off` in `s`.
pub open spec fn header_values(s: Seq<u8>, off: int) -> Seq<u32> {
    Seq::new(150, |i: int| le_u32(s, off + 4 * i))
}

/// Whether `h` is the header read from `s` at `off`.
pub open spec fn is_header_at(h: MhyHeader, s: Seq<u8>, off: int) -> bool {
    &&& h.file_offset == off
    &&& h.values@ == header_values(s, off)
}

/// The positions below `n` at which a complete header stands in `s`, in increasing order.
pub open spec fn candidate_offsets(s: Seq<u8>, n: nat) -> Seq<int>
    decreases n,
{
    if n == 0 {
        Seq::empty()
    } else {
        let i = n - 1;
        let earlier = candidate_offsets(s, (n - 1) as nat);
        if has_signature_at(s, i) && header_fits(s, i) {
            earlier.push(i)
        } else {
            earlier
        }
    }
}

/// Whether `r` is what `MhyHeader::parse` gives for `dll`: the header at the first `MHY\0`
/// signature, an error when there is no signature, another when the first one has no room
/// for its 150 values.
pub open spec fn is_parse_result(dll: Seq<u8>, r: Result<MhyHeader, ReconstructError>) -> bool {
    &&& r matches Ok(h) ==> is_first_signature(dll, h.file_offset as int) && header_fits(dll, h.file_offset as int)
        && is_header_at(h, dll, h.file_offset as int)
    &&& r == Err::<MhyHeader, ReconstructError>(ReconstructError::MhySignatureNotFound) <==> (forall|i: int|
        !has_signature_at(dll, i))
    &&& r == Err::<MhyHeader, ReconstructError>(ReconstructError::MhyHeaderTooSmall) <==> (exists|i: int|
        is_first_signature(dll, i) && !header_fits(dll, i))
    &&& r is Ok || r == Err::<MhyHeader, ReconstructError>(ReconstructError::MhySignatureNotFound)
        || r == Err::<MhyHeader, ReconstructError>(ReconstructError::MhyHeaderTooSmall)
}

proof fn lemma_no_candidates(s: Seq<u8>, n: nat)
    requires
        forall|j: int| 0 <= j < n ==> !(has_signature_at(s, j) && header_fits(s, j)),
    ensures
        candidate_offsets(s, n).len() == 0,
    decreases n,
{
    if n > 0 {
        lemma_no_candidates(s, (n - 1) as nat);
    }
}

proof fn lemma_first_candidate(s: Seq<u8>, n: nat, f: int)
    requires
        0 <= f < n,
        has_signature_at(s, f),
        header_fits(s, f),
        forall|j: int| 0 <= j < f ==> !(has_signature_at(s, j) && header_fits(s, j)),
    ensures
        candidate_offsets(s, n).len() > 0,
        candidate_offsets(s, n)[0] == f,
    decreases n,
{
    if n == f + 1 {
        lemma_no_candidates(s, f as nat);
    } else {
        lemma_first_candidate(s, (n - 1) as nat, f);
    }
}

proof fn lemma_first_signature_exists(s: Seq<u8>, i: int)
    requires
        has_signature_at(s, i),
    ensures
        exists|f: int| is_first_signature(s, f),
    decreases i,
{
    if exists|j: int| 0 <= j < i && has_signature_at(s, j) {
        let j = choose|j: int| 0 <= j < i && has_signature_at(s, j);
        lemma_first_signature_exists(s, j);
    } else {
        assert(is_first_signature(s, i));
    }
}

/// The header that `MhyHeader::parse` reads is the first of those that
/// `MhyHeader::candidates` reads, and parsing fails exactly when there is no candidate.
pub proof fn lemma_parse_takes_first_candidate(dll: Seq<u8>, r: Result<MhyHeader, ReconstructError>)
    requires
        is_parse_result(dll, r),
    ensures
        r is Err <==> candidate_offsets(dll, dll.len()).len() == 0,
        r matches Ok(h) ==> h.file_offset == candidate_offsets(dll, dll.len())[0] && is_header_at(
            h,
            dll,
            candidate_offsets(dll, dll.len())[0],
        ),
{
    let n = dll.len();
    if exists|f: int| is_first_signature(dll, f) && header_fits(dll, f) {
        let f = choose|f: int| is_first_signature(dll, f) && header_fits(dll, f);
        lemma_first_candidate(dll, n, f);
        assert(!(exists|i: int| is_first_signature(dll, i) && !header_fits(dll, i))) by {
            assert forall|i: int| is_first_signature(dll, i) implies header_fits(dll, i) by {
                assert(!has_signature_at(dll, i) || i >= f);
                assert(!has_signature_at(dll, f) || f >= i);
            }
        }
        assert(!(forall|i: int| !has_signature_at(dll, i)));
    } else {
        if exists|i: int| has_signature_at(dll, i) {
            let i = choose|i: int| has_signature_at(dll, i);
            lemma_first_signature_exists(dll, i);
            let f = choose|f: int| is_first_signature(dll, f);
            assert(!header_fits(dll, f));
            assert forall|j: int| 0 <= j < n implies !(has_signature_at(dll, j) && header_fits(dll, j)) by {
                if j < f {
                } else {
                    assert(!header_fits(dll, j));
                }
            }
        }
        lemma_no_candidates(dll, n);
    }
}

fn signature_at(dll: &[u8], i: usize) -> (r: bool)
    ensures
        r == has_signature_at(dll@, i as int),
{
    i <= dll.len() && dll.len() - i >= 4 && dll[i] == 0x4d && dll[i + 1] == 0x48 && dll[i + 2]
        == 0x59 && dll[i + 3] == 0
}

impl MhyHeader {
    /// Reads the header at the first `MHY\0` signature of `dll`.
    pub fn parse(dll: &[u8]) -> (r: Result<Self, ReconstructError>)
        ensures
            is_parse_result(dll@, r),
    {
        let mut i: usize = 0;
        while i < dll.len()
            invariant
                i <= dll@.len(),
                forall|j: int| 0 <= j < i ==> !has_signature_at(dll@, j),
            decreases dll.len() - i,
        {
            if signature_at(dll, i) {
                let r = Self::parse_at(dll, i);
                assert(is_first_signature(dll@, i as int));
                assert forall|k: int| is_first_signature(dll@, k) implies k == i by {
                    if k < i {
                    } else if k > i {
                        assert(!has_signature_at(dll@, i as int));
                    }
                }
                return r;
            }
            i = i + 1;
        }
        assert forall|j: int| !has_signature_at(dll@, j) by {
            if 0 <= j < dll@.len() {
            }
        }
        Err(ReconstructError::MhySignatureNotFound)
    }

    /// Reads every header whose `MHY\0` signature has its 150 values in `dll`, in file order.
    pub fn candidates(dll: &[u8]) -> (r: Vec<Self>)
        ensures
            r@.len() == candidate_offsets(dll@, dll@.len()).len(),
            forall|k: int|
                0 <= k < r@.len() ==> is_header_at(
                    #[trigger] r@[k],
                    dll@,
                    candidate_offsets(dll@, dll@.len())[k],
                ),
    {
        let mut result: Vec<Self> = Vec::new();
        let mut i: usize = 0;
        while i < dll.len()
            invariant
                i <= dll@.len(),
                result@.len() == candidate_offsets(dll@, i as nat).len(),
                forall|k: int|
                    0 <= k < result@.len() ==> is_header_at(
                        #[trigger] result@[k],
                        dll@,
                        candidate_offsets(dll@, i as nat)[k],
                    ),
            decreases dll.len() - i,
        {
            if signature_at(dll, i) {
                if let Ok(header) = Self::parse_at(dll, i) {
                    result.push(header);
                }
            }
            i = i + 1;
        }
        result
    }

    fn parse_at(dll: &[u8], offset: usize) -> (r: Result<Self, ReconstructError>)
        ensures
            r matches Ok(h) ==> is_header_at(h, dll@, offset as int),
            r is Ok <==> header_fits(dll@, offset as int),
            r matches Err(e) ==> e == ReconstructError::MhyHeaderTooSmall,
    {
        if dll.len() < 600 || offset > dll.len() - 600 {
            return Err(ReconstructError::MhyHeaderTooSmall);
        }
        let mut values = [0u32; 150];
        let mut i: usize = 0;
        while i < 150
            invariant
                i <= 150,
                header_fits(dll@, offset as int),
                offset + 600 <= dll.len(),
                forall|j: int| 0 <= j < i ==> values@[j] == le_u32(dll@, offset + 4 * j),
            decreases 150 - i,
        {
            values[i] = read_u32_at(dll, offset + i * 4);
            i = i + 1;
        }
        let header = Self { values, file_offset: offset };
        assert(header.values@ =~= header_values(dll@, offset as int));
        Ok(header)
    }

    /// Offset of the string table in the metadata body.
    #[verifier::allow_in_spec]
    pub fn string_table_off(&self) -> usize
        returns
            self.values@[109].wrapping_sub(1924946706) as usize,
    {
        self.values[109].wrapping_sub(1924946706) as usize
    }

    /// Offset of the string-literal position table.
    #[verifier::allow_in_spec]
    pub fn string_literal_offsets_base(&self) -> usize
        returns
            (self.values@[124] ^ 0x56c7_d20d) as usize,
    {
        (self.values[124] ^ 0x56c7_d20d) as usize
    }

    /// Base to which decoded string-literal positions are relative.
    #[verifier::allow_in_spec]
    pub fn string_literal_data_base(&self) -> u32
        returns
            self.values@[2].wrapping_add(854_233_332),
    {
        self.values[2].wrapping_add(854_233_332)
    }

    /// Offset of the image table in `startup-metadata.dat`.
    #[verifier::allow_in_spec]
    pub fn image_off(&self) -> usize
        returns
            self.values@[84].wrapping_add(0xD882615E) as usize,
    {
        self.values[84].wrapping_add(0xD882615E) as usize
    }

    /// Number of 40-byte image records.
    #[verifier::allow_in_spec]
    pub fn image_count(&self) -> usize
        returns
            ((self.values@[77] ^ 0x10210728) / 0x28) as usize,
    {
        ((self.values[77] ^ 0x10210728) / 0x28) as usize
    }

    /// Offset of the method table.
    #[verifier::allow_in_spec]
    pub fn method_table_base(&self) -> usize
        returns
            self.values@[83].wrapping_sub(207601004) as usize,
    {
        self.values[83].wrapping_sub(207601004) as usize
    }

    /// Offset of the parameter table.
    #[verifier::allow_in_spec]
    pub fn param_table_base(&self) -> usize
        returns
            self.values@[12].wrapping_sub(587858498) as usize,
    {
        self.values[12].wrapping_sub(587858498) as usize
    }

    /// Offset of the field table.
    #[verifier::allow_in_spec]
    pub fn field_table_base(&self) -> usize
        returns
            self.values@[8].wrapping_sub(1292050039) as usize,
    {
        self.values[8].wrapping_sub(1292050039) as usize
    }

    /// Offset of the field-offset table.
    #[verifier::allow_in_spec]
    pub fn offset_table_base(&self) -> usize
        returns
            (self.values@[82] ^ 0x329E1172) as usize,
    {
        (self.values[82] ^ 0x329E1172) as usize
    }

    /// Offset of the interface table.
    #[verifier::allow_in_spec]
    pub fn interface_table_base(&self) -> usize
        returns
            (self.values@[114] ^ 0x042F_9275) as usize,
    {
        (self.values[114] ^ 0x042F_9275) as usize
    }

    /// Offset of the generic-container table.
    #[verifier::allow_in_spec]
    pub fn gc_table_base(&self) -> usize
        returns
            self.values@[60].wrapping_sub(1656188401) as usize,
    {
        self.values[60].wrapping_sub(1656188401) as usize
    }

    /// Offset of the generic-parameter table.
    #[verifier::allow_in_spec]
    pub fn gp_table_base(&self) -> usize
        returns
            self.values@[80].wrapping_sub(626232567) as usize,
    {
        self.values[80].wrapping_sub(626232567) as usize
    }

    /// Offset of the generic-constraint table.
    #[verifier::allow_in_spec]
    pub fn generic_constraint_table_base(&self) -> usize
        returns
            self.values@[76].wrapping_sub(22_792_381) as usize,
    {
        self.values[76].wrapping_sub(22_792_381) as usize
    }

    /// Offset of the parameter-default table.
    #[verifier::allow_in_spec]
    pub fn parameter_default_table_base(&self) -> usize
        returns
            self.values@[19].wrapping_sub(399_745_016) as usize,
    {
        self.values[19].wrapping_sub(399_745_016) as usize
    }

    /// Number of 12-byte parameter-default records.
    #[verifier::allow_in_spec]
    pub fn parameter_default_count(&self) -> usize
        returns
            ((self.values@[24] ^ 0x2F5D_2DD0) / 12) as usize,
    {
        ((self.values[24] ^ 0x2F5D_2DD0) / 12) as usize
    }

    /// Offset of the field-default table.
    #[verifier::allow_in_spec]
    pub fn field_default_table_base(&self) -> usize
        returns
            (self.values@[127] ^ 0x6238_CDB0) as usize,
    {
        (self.values[127] ^ 0x6238_CDB0) as usize
    }

    /// Number of 12-byte field-default records.
    #[verifier::allow_in_spec]
    pub fn field_default_count(&self) -> usize
        returns
            ((self.values@[119] ^ 0x3E0C_72F0) / 12) as usize,
    {
        ((self.values[119] ^ 0x3E0C_72F0) / 12) as usize
    }

    /// Offset of the default-value blob.
    #[verifier::allow_in_spec]
    pub fn default_value_data_base(&self) -> usize
        returns
            self.values@[15].wrapping_sub(1_752_438_875) as usize,
    {
        self.values[15].wrapping_sub(1_752_438_875) as usize
    }

    /// Offset of the property table.
    #[verifier::allow_in_spec]
    pub fn property_table_base(&self) -> usize
        returns
            (self.values@[16] ^ 0x3C68_5CDB) as usize,
    {
        (self.values[16] ^ 0x3C68_5CDB) as usize
    }

    /// Offset of the event table.
    #[verifier::allow_in_spec]
    pub fn event_table_base(&self) -> usize
        returns
            (self.values@[107] ^ 0x3708_0D6E) as usize,
    {
        (self.values[107] ^ 0x3708_0D6E) as usize
    }

    /// Offset of the vtable-method table.
    #[verifier::allow_in_spec]
    pub fn vtable_method_table_base(&self) -> usize
        returns
            self.values@[88].wrapping_sub(949_367_470) as usize,
    {
        self.values[88].wrapping_sub(949_367_470) as usize
    }

    /// Offset of the interface-offset table.
    #[verifier::allow_in_spec]
    pub fn interface_offset_table_base(&self) -> usize
        returns
            (self.values@[69] ^ 0x3EAB_B25A) as usize,
    {
        (self.values[69] ^ 0x3EAB_B25A) as usize
    }

    /// The raw value 39.
    #[verifier::allow_in_spec]
    pub fn mhy39(&self) -> u32
        returns
            self.values@[39],
    {
        self.values[39]
    }

    /// The raw value 96.
    #[verifier::allow_in_spec]
    pub fn mhy96(&self) -> u32
        returns
            self.values@[96],
    {
        self.values[96]
    }

    /// Offset of the method-pointer index table.
    #[verifier::allow_in_spec]
    pub fn table42_base(&self) -> usize
        returns
            (self.values@[42] ^ 0x2CE30270) as usize,
    {
        (self.values[42] ^ 0x2CE30270) as usize
    }

    /// Number of 6-byte method-pointer index records.
    #[verifier::allow_in_spec]
    pub fn table42_count(&self) -> usize
        returns
            (self.values@[17].wrapping_sub(533897168) / 6) as usize,
    {
        (self.values[17].wrapping_sub(533897168) / 6) as usize
    }
}

} // verus!
