# takopack_local

Packages a local Rust crate as an RPM spec file. `src/` holds the decisions,
verified with Verus; `app/` reads and writes files, downloads archives and logs.

A run is a `LocalPackage`. Its stage says what to do next, and `advance` takes
what came of it:

- the manifest is located, and each file that it declares is replaced by a
  stand-in (`manifest`), so that Cargo can load the crate;
- a lockfile, if there is one, fixes the versions of direct dependencies
  (`lockfile`; `doubts` lists those that stay open) and the Git source of the
  crate (`source`, `git_archive`);
- the archive of that source is checked and described for the spec file
  (`archive`, `git_archive`);
- dependency ranges that the lockfile does not settle are audited.

Paths are slash-separated. TOML, semantic versions, tar archives and SHA-256
come from the crates `toml`, `semver`, `tar`, `flate2` and `sha2`; what is
believed of them stands beside each call.
