# trirecover

A read-only data-recovery toolkit whose core is verified with Verus.

- `src/` is the verified library: the signature catalog, format validators
  and scanner of the file carver; MBR and GPT partition tables; the NTFS
  (boot sector, MFT records, attributes, run lists, path reconstruction),
  FAT32 and exFAT parsers; the in-memory and memory-mapped sector readers;
  the recovery engine's decisions
  (strategies, job states, unallocated ranges, destination paths); command
  line parsing; cloud-folder and configuration rules. Each public function
  states its result in `ensures`, except the cancellation token and job
  control, whose values live in atomics shared between threads; laws that relate several functions are
  public proof functions named `law_*`.
- `app/` is the `trirecover-carve` program and the parts that touch the
  operating system: opening and mapping image files and raw devices, the
  background job manager, cloud sync-folder detection and the
  configuration file.
- `tests/` exercises the library on concrete inputs.
