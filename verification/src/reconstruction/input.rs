use crate::discovery::mhy::{candidate_offsets, header_fits, header_values, is_first_signature, is_header_at, MhyHeader};
use crate::discovery::profile::BuildProfile;
use crate::errors::ReconstructError;
use vstd::prelude::*;

verus! {

/// The three files that a reconstruction reads, with the header that locates their tables.
pub struct ReconstructionInputs {
    pub global_body: Vec<u8>,
    pub dll: Vec<u8>,
    pub startup_metadata: Vec<u8>,
    pub mhy: MhyHeader,
    /// Where the generic-class table starts in `startup_metadata`.
    pub generic_class_source_offset: usize,
    /// How many records the generic-class table holds.
    pub generic_class_count: usize,
}

/// Whether the header values `v` place the type table where `profile` has it, and name at least
/// one image whose records all lie in a startup file of `startup_len` bytes.
pub open spec fn values_match(v: Seq<u32>, startup_len: nat, profile: BuildProfile) -> bool {
    let image_count = ((v[77] ^ 0x10210728) / 0x28) as int;
    let image_off = v[84].wrapping_add(0xD882615E) as int;
    &&& (v[33] ^ 0x6853_1d3f) as usize == profile.type_definition_offset
    &&& image_count > 0
    &&& image_count * 40 + image_off <= startup_len
}

/// The metadata body: what follows a prefix of `prefix` bytes, or the whole file when it is not
/// longer than the prefix.
pub open spec fn metadata_body(metadata: Seq<u8>, prefix: nat) -> Seq<u8> {
    if metadata.len() > prefix {
        metadata.subrange(prefix as int, metadata.len() as int)
    } else {
        metadata
    }
}

/// Whether none of the first `k` header candidates of `dll` matches.
pub open spec fn no_match_before(dll: Seq<u8>, k: int, startup_len: nat, profile: BuildProfile) -> bool {
    let offsets = candidate_offsets(dll, dll.len());
    forall|j: int|
        0 <= j < k ==> !values_match(
            #[trigger] header_values(dll, offsets[j]),
            startup_len,
            profile,
        )
}

/// The header that a reconstruction uses: the first candidate of `dll` that matches the
/// profile, else the header at the first signature.
pub open spec fn is_selected_header(h: MhyHeader, dll: Seq<u8>, startup_len: nat, profile: BuildProfile) -> bool {
    let offsets = candidate_offsets(dll, dll.len());
    ||| exists|k: int|
        0 <= k < offsets.len() && #[trigger] offsets[k] == h.file_offset && is_header_at(
            h,
            dll,
            offsets[k],
        ) && values_match(h.values@, startup_len, profile) && no_match_before(
            dll,
            k,
            startup_len,
            profile,
        )
    ||| no_match_before(dll, offsets.len() as int, startup_len, profile) && is_first_signature(
        dll,
        h.file_offset as int,
    ) && header_fits(dll, h.file_offset as int) && is_header_at(h, dll, h.file_offset as int)
}

/// A header can be selected only where not every header fails to match.
pub proof fn lemma_selected_excludes_no_match(h: MhyHeader, dll: Seq<u8>, startup_len: nat, profile: BuildProfile)
    requires
        is_selected_header(h, dll, startup_len, profile),
    ensures
        !no_header_matches(dll, startup_len, profile),
{
    let offsets = candidate_offsets(dll, dll.len());
    if exists|k: int|
        0 <= k < offsets.len() && #[trigger] offsets[k] == h.file_offset && is_header_at(h, dll, offsets[k])
            && values_match(h.values@, startup_len, profile) && no_match_before(dll, k, startup_len, profile) {
        let k = choose|k: int|
            0 <= k < offsets.len() && #[trigger] offsets[k] == h.file_offset && is_header_at(h, dll, offsets[k])
                && values_match(h.values@, startup_len, profile) && no_match_before(dll, k, startup_len, profile);
        assert(h.values@ == header_values(dll, offsets[k]));
        assert(values_match(header_values(dll, offsets[k]), startup_len, profile));
    } else {
        assert(is_first_signature(dll, h.file_offset as int) && header_fits(dll, h.file_offset as int));
    }
}

fn header_matches(h: &MhyHeader, startup_len: usize, profile: &BuildProfile) -> (r: bool)
    ensures
        r == values_match(h.values@, startup_len as nat, *profile),
{
    let image_count = h.image_count();
    image_count > 0 && (h.values[33] ^ 0x6853_1d3f) as usize == profile.type_definition_offset
        && image_count <= usize::MAX / 40 && h.image_off() <= usize::MAX - image_count * 40
        && image_count * 40 + h.image_off() <= startup_len
}

/// Whether `inputs` holds the metadata body of `metadata` after the prefix of `profile`,
/// `dll` and `startup`, the header of `dll` that matches `profile`, and an empty generic-class
/// table.
pub open spec fn loaded_from(
    inputs: ReconstructionInputs,
    metadata: Seq<u8>,
    dll: Seq<u8>,
    startup: Seq<u8>,
    profile: BuildProfile,
) -> bool {
    &&& inputs.global_body@ == metadata_body(metadata, profile.metadata_prefix_size as nat)
    &&& inputs.dll@ == dll
    &&& inputs.startup_metadata@ == startup
    &&& is_selected_header(inputs.mhy, dll, startup.len(), profile)
    &&& inputs.generic_class_source_offset == 0
    &&& inputs.generic_class_count == 0
}

/// Whether no header of `dll` matches `profile`, and none can be read from its first
/// signature either.
pub open spec fn no_header_matches(dll: Seq<u8>, startup_len: nat, profile: BuildProfile) -> bool {
    &&& no_match_before(dll, candidate_offsets(dll, dll.len()).len() as int, startup_len, profile)
    &&& forall|i: int| !#[trigger] is_first_signature(dll, i) || !header_fits(dll, i)
}

impl ReconstructionInputs {
    /// Takes the contents of `global-metadata.dat`, `GameAssembly.dll` and
    /// `startup-metadata.dat`: strips the metadata prefix of `profile` and selects the header
    /// that matches `profile`. The generic-class table is left empty.
    pub fn load(
        metadata: Vec<u8>,
        dll: Vec<u8>,
        startup_metadata: Vec<u8>,
        profile: &BuildProfile,
    ) -> (r: Result<Self, ReconstructError>)
        ensures
            match r {
                Ok(inputs) => loaded_from(inputs, metadata@, dll@, startup_metadata@, *profile),
                Err(e) => e == ReconstructError::NoMatchingHeader && no_header_matches(dll@, startup_metadata@.len(), *profile),
            },
    {
        let prefix = profile.metadata_prefix_size;
        let global_body = if metadata.len() > prefix {
            vstd::slice::slice_to_vec(vstd::slice::slice_subrange(metadata.as_slice(), prefix, metadata.len()))
        } else {
            metadata
        };
        assert(global_body@ == metadata_body(metadata@, profile.metadata_prefix_size as nat));
        let candidates = MhyHeader::candidates(dll.as_slice());
        let ghost offsets = candidate_offsets(dll@, dll@.len());
        let mut k: usize = 0;
        while k < candidates.len()
            invariant
                k <= candidates@.len(),
                global_body@ == metadata_body(metadata@, profile.metadata_prefix_size as nat),
                candidates@.len() == offsets.len(),
                offsets == candidate_offsets(dll@, dll@.len()),
                forall|j: int| 0 <= j < candidates@.len() ==> is_header_at(#[trigger] candidates@[j], dll@, offsets[j]),
                no_match_before(dll@, k as int, startup_metadata@.len(), *profile),
            decreases candidates.len() - k,
        {
            assert(is_header_at(candidates@[k as int], dll@, offsets[k as int]));
            if header_matches(&candidates[k], startup_metadata.len(), profile) {
                let mhy = candidates[k];
                assert(offsets[k as int] == mhy.file_offset);
                assert(is_selected_header(mhy, dll@, startup_metadata@.len(), *profile));
                return Ok(ReconstructionInputs {
                    global_body,
                    dll,
                    startup_metadata,
                    mhy,
                    generic_class_source_offset: 0,
                    generic_class_count: 0,
                });
            }
            k = k + 1;
        }
        match MhyHeader::parse(dll.as_slice()) {
            Ok(mhy) => Ok(ReconstructionInputs {
                global_body,
                dll,
                startup_metadata,
                mhy,
                generic_class_source_offset: 0,
                generic_class_count: 0,
            }),
            Err(_) => Err(ReconstructError::NoMatchingHeader),
        }
    }
}

} // verus!
