# raze_planner

Plans the build of a cargo workspace. From the output of `cargo metadata` and the
settings of the user it works out, for each crate that the workspace depends on, what
its build file has to say: targets, dependencies by kind, licenses by rating.

`src/` is the library, verified with Verus. It decides; it does not touch the disk.

- `planner` takes a plan step by step: what was fetched, what is vendored, the platform.
- `contexts` works out the contexts of all crates, from `graph`, `dependencies`,
  `targets`, `license` and `platform`.
- `requests` works out which license expressions a plan has to have looked up.
- `fetcher` decides how metadata are had from cargo.
- `laws` states what holds of every plan.

`app/` does what the library asks for: it runs cargo, copies files and looks for
directories. What the attributes of a platform are, and what licenses a license expression
stands for, is for its user to say.

## Outside crates

The `cfg` expressions in which a dependency names its platforms are cargo's own. They are
parsed and matched with `cargo-platform`, the crate in which cargo keeps them, so that the
library needs no more of cargo than that. `serde`, `serde_json` and `tempdir` serve `app/`
alone.
