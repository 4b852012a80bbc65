# todo-curator

Checks TODO comments that reference GitHub and GitLab issues, merge requests
and epics: whether the comments are written in an accepted form, whether the
referenced items are closed or missing, which URL-form references can be
written shorter, and which TODOs the current merge request settles.

The library in `src/` is verified with Verus:

- `token.rs` – the grammar of one reference token (`#12`, `group/project!3`,
  `https://github.com/owner/repo/issues/7`, ...).
- `scan.rs` – which lines are TODO-like and the tokens a TODO-like line carries.
- `todo.rs` – references, lint violations, extraction of a file's lines, and
  the exclude patterns.
- `order.rs` – the stable, de-duplicating sort behind the report order.
- `checker.rs` – project detection, host and token settings, and the plan for
  checking one reference.
- `status.rs` – what the answers of GitHub and GitLab mean for a reference.
- `mr.rs` – the issues a merge request closes and the TODOs that refer to them.
- `report.rs` – the text report, as styled pieces of text.
- `shortening.rs` – proofs that suggested short forms are accepted references
  to the same item, and that the schema of a full URL is optional.
- `lib.rs` – the outputs of the checks and how they combine.

`app/` is the command-line program around it: argument parsing, walking and
reading the source tree, git, the GitHub and GitLab clients, colours and JSON.
