# rhei_cli

The verified core of the `rhei` command line, written in Verus.

- `src/` is the library. Every executable function there carries a
  `requires`/`ensures` contract that Verus proves: path arithmetic, report
  and summary rendering, settings merging and validation, template
  composition checks, snapshot inheritance rules and supervision ownership.
  Outside crates are reached only through a few trusted wrappers
  (`sha256_digest`, `debug_str`, `read_all`) and one `assume_specification`
  (`String::push`).
- `tests/` exercises the library from outside, one `#[test]` per behaviour.
- `app/` is the thin command line around it: argument handling, reading
  settings and logs from disk, and printing.
