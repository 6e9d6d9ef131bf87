# faber_package

The package layer of the Faber compiler as a verified library: every
function under `src/` carries a `requires`/`ensures` contract that Verus
proves.

- `naming`, `paths`, `layout`: crate-name sanitizing, path normalization,
  the build layout of a package, and how a package input resolves to its
  manifest, root and entry.
- `dispatch`, `selection`: host-provider dispatch for a package's routes and
  the admission of the providers' manifests; the device backend selection.
- `device`: the constructed device program (which functions become
  kernels and in what order, slot aliases and joins, binding order,
  dependency-ordered launches, semantic facts), its typed wire and
  admission, the host descriptor, the device section, the training-plan
  analysis of an entry loop, the route's step and repeat counts, its declared loss
  observation and receipt lines, and the prefill program (weight repack,
  input registration, kernel graph and its assembly, chained dependencies,
  the half-precision decode and the golden's
  hex stream).
- `search`, `sorted_map`: the small search lemmas and the ordered map the
  rest builds on.

`app/` holds what the library does not: reading manifests and goldens from
disk, the environment overrides, the floating-point reports and tables, and
the glue that hands the compiler's prefill kernel derivations to the
library. The general device-program constructor's pieces (kernel selection,
slot aliases and joins, construction) are in the library; nothing here
composes them, since the compiler stages that feed them are not part of this
project.
`tests/` exercises the library from outside.
