use vstd::prelude::*;

verus! {

/// The layout of one game build: where the metadata tables are and how large they are.
#[derive(Clone, Debug, PartialEq, Eq)]
pub struct BuildProfile {
    pub metadata_prefix_size: usize,
    pub type_definition_count: usize,
    pub type_definition_offset: usize,
    pub generic_parameter_count: usize,
    pub generic_container_count: usize,
    pub interface_count: usize,
    pub interface_offset: usize,
    pub string_literal_count: usize,
    pub primary_method_pointer_file_offset: usize,
    pub fallback_method_pointer_file_offset: usize,
    pub minimum_method_pointer_va: u64,
    pub maximum_method_pointer_va: u64,
}

/// Values that replace those of a profile where they are given.
#[derive(Clone, Debug, Default)]
pub struct ProfileOverrides {
    pub metadata_prefix_size: Option<usize>,
    pub type_definition_count: Option<usize>,
    pub type_definition_offset: Option<usize>,
    pub generic_parameter_count: Option<usize>,
    pub generic_container_count: Option<usize>,
    pub interface_count: Option<usize>,
    pub interface_offset: Option<usize>,
    pub string_literal_count: Option<usize>,
    pub primary_method_pointer_file_offset: Option<usize>,
    pub fallback_method_pointer_file_offset: Option<usize>,
    pub minimum_method_pointer_va: Option<u64>,
    pub maximum_method_pointer_va: Option<u64>,
}

/// `value` when it is given, else `current`.
pub open spec fn overridden<T>(current: T, value: Option<T>) -> T {
    match value {
        Some(v) => v,
        None => current,
    }
}

/// `profile` with every value that `overrides` gives put in place of its own.
pub open spec fn with_overrides(profile: BuildProfile, overrides: ProfileOverrides) -> BuildProfile {
    BuildProfile {
        metadata_prefix_size: overridden(profile.metadata_prefix_size, overrides.metadata_prefix_size),
        type_definition_count: overridden(
            profile.type_definition_count,
            overrides.type_definition_count,
        ),
        type_definition_offset: overridden(
            profile.type_definition_offset,
            overrides.type_definition_offset,
        ),
        generic_parameter_count: overridden(
            profile.generic_parameter_count,
            overrides.generic_parameter_count,
        ),
        generic_container_count: overridden(
            profile.generic_container_count,
            overrides.generic_container_count,
        ),
        interface_count: overridden(profile.interface_count, overrides.interface_count),
        interface_offset: overridden(profile.interface_offset, overrides.interface_offset),
        string_literal_count: overridden(profile.string_literal_count, overrides.string_literal_count),
        primary_method_pointer_file_offset: overridden(
            profile.primary_method_pointer_file_offset,
            overrides.primary_method_pointer_file_offset,
        ),
        fallback_method_pointer_file_offset: overridden(
            profile.fallback_method_pointer_file_offset,
            overrides.fallback_method_pointer_file_offset,
        ),
        minimum_method_pointer_va: overridden(
            profile.minimum_method_pointer_va,
            overrides.minimum_method_pointer_va,
        ),
        maximum_method_pointer_va: overridden(
            profile.maximum_method_pointer_va,
            overrides.maximum_method_pointer_va,
        ),
    }
}

impl BuildProfile {
    /// Puts every value that `overrides` gives in place of the profile's own.
    pub fn apply(&mut self, overrides: &ProfileOverrides)
        ensures
            *final(self) == with_overrides(*old(self), *overrides),
    {
        if let Some(value) = overrides.metadata_prefix_size {
            self.metadata_prefix_size = value;
        }
        if let Some(value) = overrides.type_definition_count {
            self.type_definition_count = value;
        }
        if let Some(value) = overrides.type_definition_offset {
            self.type_definition_offset = value;
        }
        if let Some(value) = overrides.generic_parameter_count {
            self.generic_parameter_count = value;
        }
        if let Some(value) = overrides.generic_container_count {
            self.generic_container_count = value;
        }
        if let Some(value) = overrides.interface_count {
            self.interface_count = value;
        }
        if let Some(value) = overrides.interface_offset {
            self.interface_offset = value;
        }
        if let Some(value) = overrides.string_literal_count {
            self.string_literal_count = value;
        }
        if let Some(value) = overrides.primary_method_pointer_file_offset {
            self.primary_method_pointer_file_offset = value;
        }
        if let Some(value) = overrides.fallback_method_pointer_file_offset {
            self.fallback_method_pointer_file_offset = value;
        }
        if let Some(value) = overrides.minimum_method_pointer_va {
            self.minimum_method_pointer_va = value;
        }
        if let Some(value) = overrides.maximum_method_pointer_va {
            self.maximum_method_pointer_va = value;
        }
    }
}

/// Applying the same overrides twice gives what applying them once gives.
pub proof fn lemma_overrides_idempotent(profile: BuildProfile, overrides: ProfileOverrides)
    ensures
        with_overrides(with_overrides(profile, overrides), overrides) == with_overrides(
            profile,
            overrides,
        ),
{
}

/// Overrides that give no value leave a profile as it is.
pub proof fn lemma_empty_overrides_keep_profile(profile: BuildProfile)
    ensures
        with_overrides(
            profile,
            ProfileOverrides {
                metadata_prefix_size: None,
                type_definition_count: None,
                type_definition_offset: None,
                generic_parameter_count: None,
                generic_container_count: None,
                interface_count: None,
                interface_offset: None,
                string_literal_count: None,
                primary_method_pointer_file_offset: None,
                fallback_method_pointer_file_offset: None,
                minimum_method_pointer_va: None,
                maximum_method_pointer_va: None,
            },
        ) == profile,
{
}

} // verus!
