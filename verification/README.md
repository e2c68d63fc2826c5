# ubiblk

A lazily fetched block device. Its data comes stripe by stripe from a source
(a raw image, an archive, another host) and lives in a local file; when the
local file grows past its ceiling, cold stripes are given back: clean ones are
dropped and fetched again from the source when they are needed, dirty ones are
compressed, encrypted and uploaded to an object store first.

The library under `src/` holds the decisions, with contracts that Verus proves.
The program under `app/` does the I/O around it: files, sockets, threads, the
object stores, the command line.

## What stands where

| Module | What it holds |
| --- | --- |
| `metadata` | the metadata file (layout, loading, saving) and the state that the device's threads share |
| `metadata_flusher` | header updates on their way to disk, one sector at a time |
| `spill::codec` | objects of spilled stripes: header, checksum, compression, encryption, names, wrapped keys |
| `spill::evictor` | choosing stripes, reading, uploading, writing headers, punching holes, the write gate |
| `stripe_fetcher`, `ingest_pool` | pulling stripes from the source and taking in pushed ones |
| `bgworker` | the coordinator: the only one that touches metadata |
| `device` | a guest's reads and writes, which wait for their stripes |
| `push_gate`, `snapshot_service` | pushed stripes and the connections they come over |
| `archive` | the stores' rules: atomic files, deletes in batches, error texts |
| `spill_setup`, `spill_purge`, `dump_metadata`, `status_report` | the tools and reports around a device |
| `io` | what the outside offers: channels, sources, stores, the puncher, the clock |
| `crypt`, `compression`, `crc` | ciphers, compression and checksums of other crates |

Each stateful type has a model, a plain mathematical value that its view gives,
and every method says what becomes of the model. The models of the larger
machines are in `spill::evictor_model` and `bgworker_model`. What holds across
methods is proved in the `*_laws` modules, for instance that a stripe's blocks
are given back only after a header that says so is durable.

The outside is reached through traits. Each keeps a record of its calls, in
proofs only, so a contract says exactly what is asked of a device, a source, a
store or a puncher. Nothing is assumed of the answers.

## What is trusted

Verus believes the contracts of the functions that call other crates: the
checksum in `crc`, the ciphers and the random numbers in `crypt`, and the
compressor in `compression`. Each says above its body what it claims.
