# Star Rail metadata reconstructor

A verified library that rebuilds IL2CPP v24.2 `global-metadata.dat` for Honkai: Star Rail
from the game's encoded `global-metadata.dat`, `startup-metadata.dat` and
`GameAssembly.dll`, with the runtime sidecars that the modified Il2CppDumper reads.

- `src/discovery`: the `MHY\0` header, the PE image, the native analysis of the header's
  decoding expressions, and the discovery of the build layout (phases A and B, the runtime
  registrations, the generic tables).
- `src/reconstruction`: the decoding of every metadata table and the string pool.
- `src/pipeline`: decoding, validation (one issue per failed check) and rebuilding.
- `src/output`: the rebuilt metadata file and the sidecar records.
- `app/`: the command line, file input and output, and the JSON profile file. The
  command line needs a profile file (`--profile`): automatic discovery needs, for each
  `MHY\0` header, its starting layout and the values of its decoding expressions, which
  nothing here derives, so discovery reports and runtime-profile output are not available.
- `tests/`: tests on concrete values.

Every function in `src/` is verified by Verus against its `requires`/`ensures` contract;
the calls into `byteorder`, `iced-x86` and std that the contracts rest on are wrappers whose
contracts are stated, each beside its call.
