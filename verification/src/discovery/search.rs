use super::layout::{discover_generic_metadata_layout, generic_metadata_layout_spec, MhyCandidates, MhyLayout};
use super::mhy::{header_fits, is_first_signature, MhyHeader};
use super::pe::{is_parsed_image, is_section_error, pe_header_error, PeImage};
use super::primary::{
    discover_phase_a, field_count_spec, image_type_total, lemma_literal_count_unique, lemma_phase_a_prefix,
    lemma_type_total_grows, literal_count, parameter_count_spec, phase_a_spec, slice_from,
};
use super::profile::BuildProfile;
use super::runtime::{
    complete_type_records, discover_method_count, discover_method_pointer_tables_at, discover_runtime_profile,
    largest_method_end, method_pointer_tables_spec, runtime_profile_spec,
};
use super::secondary::{discover_phase_b, phase_b_spec, PrimaryCounts};
use super::{
    best_score, discover_field_count, discover_parameter_count, first_with_score, interface_end,
    interface_range_upper_bound, lemma_best_score_attained, lemma_first_with_score, DiscoveredProfile,
    DiscoveryEvidence, RuntimeProfile,
};
use crate::errors::ReconstructError;
use crate::reconstruction::images::{decrypt_images_at, image_run, is_image_record_at};
use crate::reconstruction::literals::discover_count_at;
use crate::reconstruction::strings::StringDecryptor;
use crate::reconstruction::types::{byte_at, interface_range_at};
use vstd::prelude::*;

verus! {

/// An `MHY\0` header that discovery tries: the header itself, the layout that discovery
/// starts from, and the values that the native code's decoding expressions give for it.
pub struct HeaderCandidate {
    pub mhy: MhyHeader,
    pub layout: MhyLayout,
    pub candidates: MhyCandidates,
}

/// What discovery settles on: the position of the chosen header, the layout and profile
/// found with it, and the figures that its evidence reports.
pub struct DiscoverySummary {
    pub header: usize,
    pub layout: MhyLayout,
    pub profile: BuildProfile,
    pub image_count: usize,
    pub interface_bound: usize,
    pub registration: usize,
    pub runtime: RuntimeProfile,
}

/// A header for which phase A succeeds: its score, and the metadata prefix, the layout and
/// the position of the header.
pub type HeaderMatch = (usize, (usize, MhyLayout, usize));

/// The matches among the first `n` of `headers`, in order.
pub open spec fn header_matches(
    metadata: Seq<u8>,
    startup: Seq<u8>,
    headers: Seq<HeaderCandidate>,
    n: nat,
) -> Seq<HeaderMatch>
    decreases n,
{
    if n == 0 {
        Seq::empty()
    } else {
        let earlier = header_matches(metadata, startup, headers, (n - 1) as nat);
        let h = headers[n - 1];
        match phase_a_spec(metadata, startup, h.layout, h.candidates.additive@, h.candidates.xor@) {
            Some((prefix, score, layout)) => earlier.push((score, (prefix, layout, (n - 1) as usize))),
            None => earlier,
        }
    }
}

/// The match that discovery goes on with: the first of those with the highest score, when
/// no other match has that score and the score is at least eight.
pub open spec fn chosen_match(headers: Seq<HeaderCandidate>, matches: Seq<HeaderMatch>) -> Result<HeaderMatch, ReconstructError> {
    let best = best_score(matches, matches.len());
    let first = first_with_score(matches, best, matches.len());
    let second = first_with_score(matches, best, (matches.len() - first - 1) as nat);
    if matches.len() == 0 {
        Err(ReconstructError::NoValidHeader)
    } else if second < matches.len() {
        Err(
            ReconstructError::AmbiguousHeaders(
                headers[matches[first].1.2 as int].mhy.file_offset,
                headers[matches[second].1.2 as int].mhy.file_offset,
            ),
        )
    } else if best < 8 {
        Err(ReconstructError::LowConfidence(best))
    } else {
        Ok(matches[first])
    }
}

/// Why no header is tried at all: `dll` holds no `MHY\0` signature, or its first header is
/// cut short, or (when it is whole) none of its headers was offered.
pub open spec fn missing_header_error(dll: Seq<u8>) -> ReconstructError {
    if exists|i: int| #[trigger] is_first_signature(dll, i) && !header_fits(dll, i) {
        ReconstructError::MhyHeaderTooSmall
    } else {
        ReconstructError::MhySignatureNotFound
    }
}

/// The number of interfaces that the interface ranges of the `type_count` type records at
/// `type_offset` cover.
pub open spec fn interface_bound(body: Seq<u8>, type_offset: usize, type_count: usize) -> nat {
    interface_end(
        Seq::new(
            type_count as nat,
            |i: int| interface_range_at(
                body,
                type_offset + 70 * i,
                match byte_at(body, type_offset + 68) {
                    Some(b) => b,
                    None => 0,
                },
            ),
        ),
        type_count as nat,
    )
}

/// The last steps of discovery, once the secondary tables are in `layout` (the string table
/// that names are read from is at `table`): the type table must lie in `body`; then come the method-pointer tables, the runtime tables, the generic
/// tables and the interface table, which must lie in `body` too.
pub open spec fn runtime_discovery(
    body: Seq<u8>,
    startup: Seq<u8>,
    dll: Seq<u8>,
    pe: PeImage,
    bounds: (u64, u64),
    header: usize,
    candidates: MhyCandidates,
    prefix: usize,
    literals: nat,
    images: nat,
    types: usize,
    table: nat,
    layout: MhyLayout,
) -> Result<DiscoverySummary, ReconstructError> {
    let type_offset = layout.type_definition_offset;
    if types * 70 + type_offset > usize::MAX {
        Err(ReconstructError::TypeTableOverflow)
    } else if types * 70 + type_offset > body.len() {
        Err(ReconstructError::TypeTableOutOfBounds)
    } else {
        let bound = interface_bound(body, type_offset, types);
        match method_pointer_tables_spec(body, dll, layout.method_pointer_map, layout.method_pointer_map_count, pe) {
            None => Err(ReconstructError::MethodPointerTablesNotFound),
            Some(tables) => match runtime_profile_spec(
                body,
                startup,
                dll,
                pe,
                tables,
                types,
                type_offset,
                layout.generic_class_source,
                layout.generic_class_count,
            ) {
                None => Err(ReconstructError::RuntimeTablesNotFound),
                Some(runtime) => match generic_metadata_layout_spec(
                    body,
                    body,
                    table,
                    candidates.additive@,
                    candidates.xor@,
                    dll,
                    pe,
                    runtime,
                    bound as usize,
                    layout,
                ) {
                    None => Err(ReconstructError::GenericTablesUnclassified),
                    Some((last, generic_parameters, generic_containers)) => {
                        let interface_offset = last.interface_table;
                        if bound * 4 + interface_offset > usize::MAX {
                            Err(ReconstructError::InterfaceTableOverflow)
                        } else if bound * 4 + interface_offset > body.len() {
                            Err(ReconstructError::InterfaceTableOutOfBounds)
                        } else {
                            Ok(
                                DiscoverySummary {
                                    header,
                                    layout: last,
                                    profile: BuildProfile {
                                        metadata_prefix_size: prefix,
                                        type_definition_count: types,
                                        type_definition_offset: type_offset,
                                        generic_parameter_count: generic_parameters,
                                        generic_container_count: generic_containers,
                                        interface_count: bound as usize,
                                        interface_offset,
                                        string_literal_count: literals as usize,
                                        primary_method_pointer_file_offset: tables.primary,
                                        fallback_method_pointer_file_offset: tables.fallback,
                                        minimum_method_pointer_va: bounds.0,
                                        maximum_method_pointer_va: bounds.1,
                                    },
                                    image_count: images as usize,
                                    interface_bound: bound as usize,
                                    registration: tables.registration,
                                    runtime,
                                },
                            )
                        }
                    },
                },
            },
        }
    }
}

/// Discovery from the header at position `header`, whose phase A gave `prefix` and
/// `layout`: the string literal count, the type count of the images, the method, parameter
/// and field counts, phase B, and then `runtime_discovery`.
pub open spec fn discovery_from(
    metadata: Seq<u8>,
    startup: Seq<u8>,
    dll: Seq<u8>,
    pe: PeImage,
    bounds: (u64, u64),
    header: usize,
    candidates: MhyCandidates,
    prefix: usize,
    layout: MhyLayout,
) -> Result<DiscoverySummary, ReconstructError> {
    let body = metadata.subrange(prefix as int, metadata.len() as int);
    let images = image_run(startup.len(), layout.image_offset as int, layout.image_count as nat);
    let total = image_type_total(startup, layout.image_offset as int, images);
    match literal_count(body, layout.string_literal_offsets, layout.string_literal_data) {
        None => Err(ReconstructError::InvalidLiteralLayout),
        Some(literals) => if total > usize::MAX {
            Err(ReconstructError::TypeCountOverflow)
        } else if total == 0 || total > 10_000_000 {
            Err(ReconstructError::ImplausibleTypeCount(total as usize))
        } else {
            let types = total as usize;
            let type_offset = layout.type_definition_offset;
            let methods = largest_method_end(body, type_offset as int, complete_type_records(body, type_offset, types)) as usize;
            match parameter_count_spec(body, layout.method_table, methods) {
                None => Err(ReconstructError::ParameterCountUnknown),
                Some(parameters) => match field_count_spec(body, type_offset, types) {
                    None => Err(ReconstructError::FieldCountUnknown),
                    Some(fields) => match phase_b_spec(
                        body,
                        startup,
                        body,
                        layout.string_table_offset as nat,
                        layout,
                        candidates.additive@,
                        candidates.xor@,
                        candidates.shift_xor@,
                        PrimaryCounts { types, methods, parameters, fields },
                    ) {
                        None => Err(ReconstructError::SecondaryTablesUnclassified),
                        Some(secondary) => runtime_discovery(
                            body,
                            startup,
                            dll,
                            pe,
                            bounds,
                            header,
                            candidates,
                            prefix,
                            literals,
                            images,
                            types,
                            layout.string_table_offset as nat,
                            secondary,
                        ),
                    },
                },
            }
        },
    }
}

/// What discovery gives for the metadata, the dll read as `pe`, the startup metadata and
/// the headers it is offered: the executable range of `pe`, then the best header by phase
/// A, then `discovery_from` that header.
pub open spec fn discovery_spec(
    metadata: Seq<u8>,
    dll: Seq<u8>,
    startup: Seq<u8>,
    pe: PeImage,
    headers: Seq<HeaderCandidate>,
) -> Result<DiscoverySummary, ReconstructError> {
    match pe.executable_bounds() {
        None => Err(ReconstructError::NoExecutableSections),
        Some(bounds) => if headers.len() == 0 {
            Err(missing_header_error(dll))
        } else {
            match chosen_match(headers, header_matches(metadata, startup, headers, headers.len())) {
                Err(e) => Err(e),
                Ok((_, (prefix, layout, index))) => discovery_from(
                    metadata,
                    startup,
                    dll,
                    pe,
                    bounds,
                    index,
                    headers[index as int].candidates,
                    prefix,
                    layout,
                ),
            }
        },
    }
}

/// The names of the profile values that discovery finds, in the order of the profile.
pub open spec fn discovered_field_names() -> Seq<Seq<char>> {
    seq![
        "metadata_prefix_size"@,
        "type_definition_count"@,
        "type_definition_offset"@,
        "generic_parameter_count"@,
        "generic_container_count"@,
        "interface_count"@,
        "interface_offset"@,
        "string_literal_count"@,
        "primary_method_pointer_file_offset"@,
        "fallback_method_pointer_file_offset"@,
        "minimum_method_pointer_va"@,
        "maximum_method_pointer_va"@,
    ]
}

/// Whether `d` is the discovered profile that `s` describes, with the header at position
/// `s.header` of `headers`.
pub open spec fn describes(d: DiscoveredProfile, s: DiscoverySummary, headers: Seq<HeaderCandidate>) -> bool {
    let mhy = headers[s.header as int].mhy;
    &&& s.header < headers.len()
    &&& d.profile == s.profile
    &&& d.layout == s.layout
    &&& d.mhy == mhy
    &&& d.evidence.mhy_file_offset == mhy.file_offset
    &&& d.evidence.metadata_prefix_size == s.profile.metadata_prefix_size
    &&& d.evidence.image_count == s.image_count
    &&& d.evidence.interface_range_upper_bound == s.interface_bound
    &&& d.evidence.executable_va_minimum == s.profile.minimum_method_pointer_va
    &&& d.evidence.executable_va_maximum == s.profile.maximum_method_pointer_va
    &&& d.evidence.code_registration_file_offset == Some(s.registration)
    &&& d.evidence.runtime == Some(s.runtime)
    &&& d.evidence.discovered_fields@.len() == discovered_field_names().len()
    &&& forall|k: int|
        0 <= k < discovered_field_names().len() ==> (#[trigger] d.evidence.discovered_fields@[k])@
            == discovered_field_names()[k]
}

/// Whether `r` is the outcome that `expected` describes.
pub open spec fn is_outcome(
    r: Result<DiscoveredProfile, ReconstructError>,
    expected: Result<DiscoverySummary, ReconstructError>,
    headers: Seq<HeaderCandidate>,
) -> bool {
    match expected {
        Ok(s) => r matches Ok(d) && describes(d, s, headers),
        Err(e) => r == Err::<DiscoveredProfile, ReconstructError>(e),
    }
}

proof fn lemma_match_positions(metadata: Seq<u8>, startup: Seq<u8>, headers: Seq<HeaderCandidate>, n: nat)
    requires
        n <= headers.len(),
    ensures
        forall|i: int|
            0 <= i < header_matches(metadata, startup, headers, n).len() ==> (#[trigger] header_matches(
                metadata,
                startup,
                headers,
                n,
            )[i]).1.2 < n,
    decreases n,
{
    if n > 0 {
        lemma_match_positions(metadata, startup, headers, (n - 1) as nat);
        let earlier = header_matches(metadata, startup, headers, (n - 1) as nat);
        let now = header_matches(metadata, startup, headers, n);
        assert forall|i: int| 0 <= i < now.len() implies (#[trigger] now[i]).1.2 < n by {
            if i < earlier.len() {
                assert(now[i] == earlier[i]);
            }
        }
    }
}

proof fn lemma_match_prefixes(metadata: Seq<u8>, startup: Seq<u8>, headers: Seq<HeaderCandidate>, n: nat)
    requires
        n <= headers.len(),
    ensures
        forall|i: int|
            0 <= i < header_matches(metadata, startup, headers, n).len() ==> (#[trigger] header_matches(
                metadata,
                startup,
                headers,
                n,
            )[i]).1.0 <= metadata.len(),
    decreases n,
{
    if n > 0 {
        lemma_match_prefixes(metadata, startup, headers, (n - 1) as nat);
        let h = headers[n - 1];
        lemma_phase_a_prefix(metadata, startup, h.layout, h.candidates.additive@, h.candidates.xor@);
        let earlier = header_matches(metadata, startup, headers, (n - 1) as nat);
        let now = header_matches(metadata, startup, headers, n);
        assert forall|i: int| 0 <= i < now.len() implies (#[trigger] now[i]).1.0 <= metadata.len() by {
            if i < earlier.len() {
                assert(now[i] == earlier[i]);
            }
        }
    }
}

/// Picks the match that discovery goes on with; see `chosen_match`.
fn choose_match(headers: &Vec<HeaderCandidate>, matches: &Vec<HeaderMatch>) -> (r: Result<HeaderMatch, ReconstructError>)
    requires
        forall|i: int| 0 <= i < matches@.len() ==> (#[trigger] matches@[i]).1.2 < headers@.len(),
    ensures
        r == chosen_match(headers@, matches@),
        r matches Ok(m) ==> exists|i: int| 0 <= i < matches@.len() && #[trigger] matches@[i] == m,
{
    if matches.len() == 0 {
        return Err(ReconstructError::NoValidHeader);
    }
    let mut best: usize = matches[0].0;
    let mut i: usize = 1;
    while i < matches.len()
        invariant
            1 <= i <= matches@.len(),
            best == best_score(matches@, i as nat),
        decreases matches.len() - i,
    {
        if matches[i].0 > best {
            best = matches[i].0;
        }
        i = i + 1;
    }
    let mut first: usize = matches.len();
    let mut k: usize = matches.len();
    while k > 0
        invariant
            k <= matches@.len(),
            first == first_with_score(matches@, best, (matches@.len() - k) as nat),
        decreases k,
    {
        k = k - 1;
        if matches[k].0 == best {
            first = k;
        }
    }
    proof {
        lemma_best_score_attained(matches@, matches@.len());
        lemma_first_with_score(matches@, best, matches@.len());
    }
    let mut second: usize = matches.len();
    let mut j: usize = matches.len();
    while j > first + 1
        invariant
            first + 1 <= j <= matches@.len(),
            second == first_with_score(matches@, best, (matches@.len() - j) as nat),
        decreases j,
    {
        j = j - 1;
        if matches[j].0 == best {
            second = j;
        }
    }
    if second < matches.len() {
        return Err(
            ReconstructError::AmbiguousHeaders(
                headers[matches[first].1.2].mhy.file_offset,
                headers[matches[second].1.2].mhy.file_offset,
            ),
        );
    }
    if best < 8 {
        return Err(ReconstructError::LowConfidence(best));
    }
    assert(matches@[first as int] == matches[first as int]);
    Ok(matches[first])
}

/// The names of the profile values that discovery finds.
fn discovered_fields() -> (r: Vec<String>)
    ensures
        r@.len() == discovered_field_names().len(),
        forall|k: int| 0 <= k < discovered_field_names().len() ==> (#[trigger] r@[k])@ == discovered_field_names()[k],
{
    let mut r: Vec<String> = Vec::new();
    r.push("metadata_prefix_size".to_owned());
    r.push("type_definition_count".to_owned());
    r.push("type_definition_offset".to_owned());
    r.push("generic_parameter_count".to_owned());
    r.push("generic_container_count".to_owned());
    r.push("interface_count".to_owned());
    r.push("interface_offset".to_owned());
    r.push("string_literal_count".to_owned());
    r.push("primary_method_pointer_file_offset".to_owned());
    r.push("fallback_method_pointer_file_offset".to_owned());
    r.push("minimum_method_pointer_va".to_owned());
    r.push("maximum_method_pointer_va".to_owned());
    r
}

/// The last steps of discovery, once the secondary tables are in `layout`; see
/// `runtime_discovery`.
fn discover_runtime_tables(
    body: &[u8],
    startup: &[u8],
    dll: &[u8],
    pe: &PeImage,
    bounds: (u64, u64),
    headers: &Vec<HeaderCandidate>,
    header: usize,
    prefix: usize,
    literals: usize,
    images: usize,
    types: usize,
    layout: MhyLayout,
    decryptor: &StringDecryptor,
) -> (r: Result<DiscoveredProfile, ReconstructError>)
    requires
        header < headers@.len(),
        decryptor.body() == body@,
    ensures
        is_outcome(
            r,
            runtime_discovery(
                body@,
                startup@,
                dll@,
                *pe,
                bounds,
                header,
                headers@[header as int].candidates,
                prefix,
                literals as nat,
                images as nat,
                types,
                decryptor.table(),
                layout,
            ),
            headers@,
        ),
{
    let type_offset = layout.type_definition_offset;
    let type_end = match types.checked_mul(70) {
        Some(size) => match type_offset.checked_add(size) {
            Some(end) => end,
            None => return Err(ReconstructError::TypeTableOverflow),
        },
        None => return Err(ReconstructError::TypeTableOverflow),
    };
    if type_end > body.len() {
        return Err(ReconstructError::TypeTableOutOfBounds);
    }
    let bound = interface_range_upper_bound(body, type_offset, types);
    let tables = match discover_method_pointer_tables_at(
        body,
        dll,
        layout.method_pointer_map,
        layout.method_pointer_map_count,
        pe,
    ) {
        Some(tables) => tables,
        None => return Err(ReconstructError::MethodPointerTablesNotFound),
    };
    let runtime = match discover_runtime_profile(
        body,
        startup,
        dll,
        pe,
        &tables,
        types,
        type_offset,
        layout.generic_class_source,
        layout.generic_class_count,
    ) {
        Some(runtime) => runtime,
        None => return Err(ReconstructError::RuntimeTablesNotFound),
    };
    let candidates = &headers[header].candidates;
    let (last, generic_parameters, generic_containers) = match discover_generic_metadata_layout(
        body,
        layout,
        candidates,
        dll,
        pe,
        &runtime,
        decryptor,
        bound,
    ) {
        Some(found) => found,
        None => return Err(ReconstructError::GenericTablesUnclassified),
    };
    let interface_offset = last.interface_table;
    let interface_end = match bound.checked_mul(4) {
        Some(size) => match interface_offset.checked_add(size) {
            Some(end) => end,
            None => return Err(ReconstructError::InterfaceTableOverflow),
        },
        None => return Err(ReconstructError::InterfaceTableOverflow),
    };
    if interface_end > body.len() {
        return Err(ReconstructError::InterfaceTableOutOfBounds);
    }
    let profile = BuildProfile {
        metadata_prefix_size: prefix,
        type_definition_count: types,
        type_definition_offset: type_offset,
        generic_parameter_count: generic_parameters,
        generic_container_count: generic_containers,
        interface_count: bound,
        interface_offset,
        string_literal_count: literals,
        primary_method_pointer_file_offset: tables.primary,
        fallback_method_pointer_file_offset: tables.fallback,
        minimum_method_pointer_va: bounds.0,
        maximum_method_pointer_va: bounds.1,
    };
    let mhy = headers[header].mhy;
    let evidence = DiscoveryEvidence {
        mhy_file_offset: mhy.file_offset,
        metadata_prefix_size: prefix,
        image_count: images,
        interface_range_upper_bound: bound,
        executable_va_minimum: bounds.0,
        executable_va_maximum: bounds.1,
        code_registration_file_offset: Some(tables.registration),
        runtime: Some(runtime),
        discovered_fields: discovered_fields(),
    };
    Ok(DiscoveredProfile { profile, evidence, mhy, layout: last })
}

/// Discovery from the header at position `header`, whose phase A gave `prefix` and
/// `layout`; see `discovery_from`.
fn discover_from_match(
    metadata: &[u8],
    startup: &[u8],
    dll: &[u8],
    pe: &PeImage,
    bounds: (u64, u64),
    headers: &Vec<HeaderCandidate>,
    header: usize,
    prefix: usize,
    layout: MhyLayout,
) -> (r: Result<DiscoveredProfile, ReconstructError>)
    requires
        header < headers@.len(),
        prefix <= metadata@.len(),
    ensures
        is_outcome(
            r,
            discovery_from(metadata@, startup@, dll@, *pe, bounds, header, headers@[header as int].candidates, prefix, layout),
            headers@,
        ),
{
    let body = slice_from(metadata, prefix);
    let literals = match discover_count_at(body, layout.string_literal_offsets, layout.string_literal_data) {
        Some(count) => {
            proof {
                lemma_literal_count_unique(body@, layout.string_literal_offsets, layout.string_literal_data, count as int);
            }
            count
        },
        None => return Err(ReconstructError::InvalidLiteralLayout),
    };
    let decryptor = StringDecryptor::new(body, layout.string_table_offset);
    let images = decrypt_images_at(startup, layout.image_offset, layout.image_count, &decryptor);
    let ghost image_offset = layout.image_offset as int;
    let mut total: usize = 0;
    let mut i: usize = 0;
    while i < images.len()
        invariant
            i <= images@.len(),
            image_offset == layout.image_offset,
            body@ == metadata@.subrange(prefix as int, metadata@.len() as int),
            literal_count(body@, layout.string_literal_offsets, layout.string_literal_data) == Some(literals as nat),
            images@.len() == image_run(startup@.len(), image_offset, layout.image_count as nat),
            total == image_type_total(startup@, image_offset, i as nat),
            forall|j: int|
                0 <= j < images@.len() ==> is_image_record_at(
                    #[trigger] images@[j],
                    startup@,
                    image_offset,
                    decryptor.body(),
                    decryptor.table(),
                    j,
                ),
        decreases images.len() - i,
    {
        assert(is_image_record_at(images@[i as int], startup@, image_offset, decryptor.body(), decryptor.table(), i as int));
        let count = images[i].type_count as usize;
        if total > usize::MAX - count {
            proof {
                lemma_type_total_grows(startup@, image_offset, (i + 1) as nat, images@.len());
            }
            return Err(ReconstructError::TypeCountOverflow);
        }
        total = total + count;
        i = i + 1;
    }
    if total == 0 || total > 10_000_000 {
        return Err(ReconstructError::ImplausibleTypeCount(total));
    }
    let types = total;
    let methods = discover_method_count(body, layout.type_definition_offset, types);
    let parameters = match discover_parameter_count(body, layout.method_table, methods) {
        Some(count) => count,
        None => return Err(ReconstructError::ParameterCountUnknown),
    };
    let fields = match discover_field_count(body, layout.type_definition_offset, types) {
        Some(count) => count,
        None => return Err(ReconstructError::FieldCountUnknown),
    };
    let candidates = &headers[header].candidates;
    let secondary = match discover_phase_b(
        body,
        startup,
        layout,
        candidates,
        &decryptor,
        PrimaryCounts { types, methods, parameters, fields },
    ) {
        Some(found) => found,
        None => return Err(ReconstructError::SecondaryTablesUnclassified),
    };
    discover_runtime_tables(
        body,
        startup,
        dll,
        pe,
        bounds,
        headers,
        header,
        prefix,
        literals,
        images.len(),
        types,
        secondary,
        &decryptor,
    )
}

/// Discovers the build profile of the metadata, the dll (read as `pe`) and the startup
/// metadata from the headers that are offered: runs phase A on each, goes on with the single
/// best one, and finds the remaining tables and counts; see `discovery_spec`.
pub fn discover_in_image(
    metadata: &[u8],
    dll: &[u8],
    startup: &[u8],
    pe: &PeImage,
    headers: &Vec<HeaderCandidate>,
) -> (r: Result<DiscoveredProfile, ReconstructError>)
    ensures
        is_outcome(r, discovery_spec(metadata@, dll@, startup@, *pe, headers@), headers@),
{
    let bounds = match pe.executable_va_range() {
        Ok(bounds) => {
            proof {
                pe.lemma_executable_bounds(bounds.0, bounds.1);
            }
            bounds
        },
        Err(e) => return Err(e),
    };
    if headers.len() == 0 {
        return match MhyHeader::parse(dll) {
            Ok(_) => Err(ReconstructError::MhySignatureNotFound),
            Err(e) => Err(e),
        };
    }
    let mut matches: Vec<HeaderMatch> = Vec::new();
    let mut k: usize = 0;
    while k < headers.len()
        invariant
            k <= headers@.len(),
            matches@ == header_matches(metadata@, startup@, headers@, k as nat),
        decreases headers.len() - k,
    {
        match discover_phase_a(metadata, startup, headers[k].layout, &headers[k].candidates) {
            Some((prefix, score, layout)) => {
                matches.push((score, (prefix, layout, k)));
            },
            None => {},
        }
        k = k + 1;
    }
    proof {
        lemma_match_positions(metadata@, startup@, headers@, headers@.len());
        lemma_match_prefixes(metadata@, startup@, headers@, headers@.len());
    }
    let (_, (prefix, layout, index)) = match choose_match(headers, &matches) {
        Ok(chosen) => chosen,
        Err(e) => return Err(e),
    };
    discover_from_match(metadata, startup, dll, pe, bounds, headers, index, prefix, layout)
}

/// Discovers the build profile: reads `dll` as a PE image and runs `discover_in_image` on it.
pub fn discover(
    metadata: &[u8],
    dll: &[u8],
    startup: &[u8],
    headers: &Vec<HeaderCandidate>,
) -> (r: Result<DiscoveredProfile, ReconstructError>)
    ensures
        pe_header_error(dll@) matches Some(e) ==> r == Err::<DiscoveredProfile, ReconstructError>(e),
        pe_header_error(dll@) is None ==> (r matches Err(e) && is_section_error(dll@, e)) || exists|pe: PeImage|
            #[trigger] is_parsed_image(pe, dll@) && is_outcome(
                r,
                discovery_spec(metadata@, dll@, startup@, pe, headers@),
                headers@,
            ),
{
    let pe = match PeImage::parse(dll) {
        Ok(pe) => pe,
        Err(e) => return Err(e),
    };
    let r = discover_in_image(metadata, dll, startup, &pe, headers);
    assert(is_parsed_image(pe, dll@));
    r
}

} // verus!
