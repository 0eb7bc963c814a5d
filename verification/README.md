# hermes

A command-line manager of TOTP secrets, kept in a JSON-lines codex file, whose
logic is verified with Verus.

- `src/` is the verified library:
  - `text.rs`: character-level text work (trimming, searching, padding,
    decimal numbers) with its specifications;
  - `models.rs`: the codex record;
  - `codex.rs`: the format check of the codex text, alias lookup, removal and
    renaming of records, and the text written back, with the laws that keep
    aliases unique;
  - `cmd.rs`: the checks before adding and updating a secret, the password
    choice, the selection of `ls`, and the text of the OTP table;
  - `otpauth.rs`: the import of `otpauth://totp/...` URIs;
  - `ui.rs`: the live table's records and redraw offsets;
  - `args.rs`: the command-line types.
- `app/` is the program around it: command line, files, terminal, password
  prompt, JSON (de)serialization, encryption and TOTP generation.
- `tests/` runs the library on concrete values.
