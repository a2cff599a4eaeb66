pub mod validation;

use crate::discovery::pe::{is_parsed_image, is_section_error, pe_header_error, PeImage};
use crate::discovery::profile::BuildProfile;
use crate::discovery::search::{discover, discovery_spec, DiscoverySummary, HeaderCandidate};
use crate::errors::ReconstructError;
use crate::output::metadata::{build, chunks, field_offset_record, generic_class_record, metadata_file, metadata_sections, method_mapping_record};
use crate::reconstruction::{decode, is_decoding, method_table_overflows, parameter_table_overflows};
use crate::reconstruction::input::{lemma_selected_excludes_no_match, loaded_from, no_header_matches, ReconstructionInputs};
use crate::reconstruction::model::{DecodedMetadata, OutputArtifacts};
use validation::{metadata_consistent, validate, ValidationReport};
use vstd::prelude::*;

verus! {

/// Why a reconstruction produced no output.
pub enum ReconstructionFailure {
    /// The tables could not be decoded.
    Decode(ReconstructError),
    /// The decoded tables are inconsistent; the report lists how.
    Invalid(ValidationReport),
}

/// The inputs of one reconstruction and the build profile that lays them out.
pub struct Reconstructor {
    inputs: ReconstructionInputs,
    profile: BuildProfile,
}

/// Whether `r` is what preparing a reconstruction gives when discovery gives `discovered`:
/// discovery's error, or the inputs loaded with the discovered profile, which fails exactly
/// when no header of `dll` matches that profile.
pub open spec fn new_outcome(
    r: Result<Reconstructor, ReconstructError>,
    discovered: Result<DiscoverySummary, ReconstructError>,
    metadata: Seq<u8>,
    dll: Seq<u8>,
    startup: Seq<u8>,
) -> bool {
    match discovered {
        Err(e) => r == Err::<Reconstructor, ReconstructError>(e),
        Ok(s) => {
            &&& r is Err <==> no_header_matches(dll, startup.len(), s.profile)
            &&& r matches Err(e) ==> e == ReconstructError::NoMatchingHeader
            &&& r matches Ok(rec) ==> rec.profile() == s.profile && loaded_from(rec.inputs(), metadata, dll, startup, s.profile)
        },
    }
}

impl Reconstructor {
    /// The inputs that `run` reads.
    pub closed spec fn inputs(&self) -> ReconstructionInputs {
        self.inputs
    }

    /// The profile that `run` decodes with.
    pub closed spec fn profile(&self) -> BuildProfile {
        self.profile
    }

    /// Discovers the build profile of the given file contents from the headers that are
    /// offered (see `discover`) and prepares a reconstruction with it.
    pub fn new(
        global_metadata: Vec<u8>,
        dll: Vec<u8>,
        startup_metadata: Vec<u8>,
        headers: &Vec<HeaderCandidate>,
    ) -> (r: Result<Self, ReconstructError>)
        ensures
            pe_header_error(dll@) matches Some(e) ==> r == Err::<Self, ReconstructError>(e),
            pe_header_error(dll@) is None ==> (r matches Err(e) && is_section_error(dll@, e)) || exists|pe: PeImage|
                #[trigger] is_parsed_image(pe, dll@) && new_outcome(
                    r,
                    discovery_spec(global_metadata@, dll@, startup_metadata@, pe, headers@),
                    global_metadata@,
                    dll@,
                    startup_metadata@,
                ),
    {
        let discovered = match discover(global_metadata.as_slice(), dll.as_slice(), startup_metadata.as_slice(), headers) {
            Ok(d) => d,
            Err(e) => return Err(e),
        };
        let profile = discovered.profile;
        let ghost metadata_bytes = global_metadata@;
        let ghost dll_bytes = dll@;
        let ghost startup_bytes = startup_metadata@;
        let r = Self::with_profile(global_metadata, dll, startup_metadata, profile);
        assert(r is Err <==> no_header_matches(dll_bytes, startup_bytes.len(), profile));
        r
    }

    /// Prepares a reconstruction of the given file contents with `profile`.
    pub fn with_profile(
        global_metadata: Vec<u8>,
        dll: Vec<u8>,
        startup_metadata: Vec<u8>,
        profile: BuildProfile,
    ) -> (r: Result<Self, ReconstructError>)
        ensures
            r matches Ok(rec) ==> rec.profile() == profile && loaded_from(
                rec.inputs(),
                global_metadata@,
                dll@,
                startup_metadata@,
                profile,
            ),
            r matches Err(e) ==> e == ReconstructError::NoMatchingHeader,
            r is Err <==> no_header_matches(dll@, startup_metadata@.len(), profile),
    {
        let ghost dll_bytes = dll@;
        let ghost startup_len = startup_metadata@.len();
        match ReconstructionInputs::load(global_metadata, dll, startup_metadata, &profile) {
            Ok(inputs) => {
                proof {
                    lemma_selected_excludes_no_match(inputs.mhy, dll_bytes, startup_len, profile);
                }
                Ok(Self { inputs, profile })
            },
            Err(e) => Err(e),
        }
    }

    /// Decodes the tables, checks them, and rebuilds the metadata file and its sidecars from
    /// them; only consistent metadata is rebuilt.
    pub fn run(&self) -> (r: Result<(DecodedMetadata, OutputArtifacts), ReconstructionFailure>)
        ensures
            r matches Ok((m, a)) ==> {
                &&& is_decoding(m, self.inputs(), self.profile())
                &&& metadata_consistent(m, self.profile())
                &&& a.rebuilt_metadata@ == metadata_file(metadata_sections(m))
                &&& a.field_offsets@ == chunks(m.field_offsets@.len(), |j: int| field_offset_record(m.field_offsets@[j]))
                &&& a.method_mappings@ == chunks(m.method_mappings@.len(), |j: int| method_mapping_record(m.method_mappings@[j]))
                &&& a.generic_classes@ == chunks(m.generic_classes@.len(), |j: int| generic_class_record(m.generic_classes@[j]))
            },
            r matches Err(ReconstructionFailure::Invalid(report)) ==> report.errors@.len() > 0 && exists|m: DecodedMetadata|
                #[trigger] is_decoding(m, self.inputs(), self.profile()) && !metadata_consistent(m, self.profile()),
            r matches Err(ReconstructionFailure::Decode(e)) ==> e == ReconstructError::MethodTableOutOfBounds
                || e == ReconstructError::ParameterTableOutOfBounds,
            (r matches Err(ReconstructionFailure::Decode(ReconstructError::MethodTableOutOfBounds)))
                == method_table_overflows(self.inputs().global_body@, self.inputs().mhy, self.profile()),
            (r matches Err(ReconstructionFailure::Decode(ReconstructError::ParameterTableOutOfBounds))) == (
                !method_table_overflows(self.inputs().global_body@, self.inputs().mhy, self.profile())
                && parameter_table_overflows(self.inputs().global_body@, self.inputs().mhy, self.profile())),
    {
        let metadata = match decode(&self.inputs, &self.profile) {
            Ok(m) => m,
            Err(e) => return Err(ReconstructionFailure::Decode(e)),
        };
        let report = validate(&metadata, &self.profile);
        if !report.is_valid() {
            assert(is_decoding(metadata, self.inputs(), self.profile()));
            return Err(ReconstructionFailure::Invalid(report));
        }
        let artifacts = build(&metadata);
        Ok((metadata, artifacts))
    }
}

} // verus!
