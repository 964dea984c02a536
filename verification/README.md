# unixtract

A firmware package analyzer and extractor for TVs, Blu-ray players and other
AV devices, with its format logic verified by Verus.

- `src/` is the library: detectors, table and header parsers, archive and
  NAND image reconstruction (ZIP, UBI, UBIFS, MStar UNFD, eMMC GPT and user
  area, MStar scripts, Vestel, Novatek, EPK, Philips UPG headers), key
  derivation and decryption steps, each with a contract proved by Verus.
  Calls into outside crates (AES, CBC, MD5, hex, RSA, deflate, LZO, zstd,
  CRC-32) sit behind small trusted wrappers whose contracts are documented
  where they are declared.
- `app/` is the command-line program: argument parsing, logging, file and
  directory I/O, and the format registry that runs each detector and
  extractor.
- `tests/` runs the library on concrete inputs.

## What this build does not cover

- MStar upgrade images whose parts are LZMA, LZ4, LZOP or sparse-image
  compressed: the script is read and the parts are planned, but the
  program reports a decompression error for such a part, because no
  decoder for these containers is included.
- LG EPK2 and EPK3 containers: they are recognised and their platform and
  SDK versions reported, but their contents are not unpacked.
- Sony BDP and Toshiba TSB packages are not supported: their header
  layouts, keys and ciphers are not part of this build.
- The built-in key tables (Novatek raw, Vestel) are empty.
