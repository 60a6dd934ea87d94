# sdd_validation

Validation of software-design-document artifacts (PRDs, epics, user stories,
Gherkin features, requirements, designs, ADRs and task lists) kept under a
repository's `specs/` tree, written in Verus.

The library checks each artifact's structure (metadata, lifecycle status,
required sections, checklists, references and template markers), and then the
repository as a whole: identifiers must be unique and agree with file names,
relationships must name recognized artifacts of the expected kind, reciprocal
relationships must be recorded on both ends, and no relationship graph may
contain a cycle. Every check ends in a deterministic report.

Each public function states its result exactly over a mathematical model of
the data (`Seq`, `Map`-like association lists, views of every type). Beside
the contracts, the library proves laws that relate several calls: metadata
reads give back what was written, reports do not depend on the order in which
artifacts are discovered, unrelated additions leave findings unchanged, and a
cycle is never reported from two starting points.

## Layout

- `src/text.rs`, `src/order.rs`, `src/copy.rs`: text models, stable sorting and
  the sequence lemmas the rest relies on.
- `src/artifact.rs`, `src/diagnostic.rs`, `src/document.rs`: the artifact
  model (kinds, paths, identifiers, metadata, snapshots) and findings.
- `src/rules.rs`: structural rules of one artifact.
- `src/identity.rs`, `src/relationships.rs`, `src/reciprocal.rs`,
  `src/cycles.rs`: repository-wide rules.
- `src/report.rs`, `src/validate.rs`, `src/ports.rs`: results, reports and the
  validation use cases over injected artifact sources.
- `src/parser.rs`, `src/discovery.rs`: reading YAML frontmatter, Markdown and
  Gherkin (through `serde_yaml`, `pulldown-cmark` and `gherkin`) and the
  decisions of repository discovery.
- `app/`: the filesystem artifact source, which walks a repository and hands
  file contents to the library.
- `tests/`: executable tests of the library.
