# Vault

File and folder encryption: AES-256-CTR content encryption with keys from
PBKDF2-HMAC-SHA256, a metadata trailer appended to each encrypted file,
deterministic encryption of file and directory names, and folder hiding
through a Windows CLSID suffix.

## Layout

- `src/` is the verified library (Verus).
  - `crypto.rs`: key derivation and the CTR keystream, with the laws that
    applying the keystream twice is the identity and that a piece of a
    buffer can be processed on its own.
  - `metadata.rs`: the trailer format, its writer, parser and detector,
    and the law that a trailer reads back as what was written.
  - `file_ops.rs`: which byte ranges of a file are encrypted, and the law
    that decrypting an encrypted file restores it.
  - `name_encrypt.rs`: name encryption and its round trips.
  - `dir_ops.rs`: the order in which a directory tree is processed
    (deepest first, both ways).
  - `tree.rs`: a model of the renames a directory pass makes, and the law
    that decrypting a directory restores every name and file content that
    encrypting it changed, at any depth.
  - `validate.rs`, `folder_hide.rs`, `error.rs`, `fonts.rs`, `app.rs`: checks
    before encryption, hidden folder names, errors, font choice, and the
    window's state machine.
- `app/` is the program around the library: file system work, the egui
  window and font loading.
- `tests/` runs the library on concrete values.
