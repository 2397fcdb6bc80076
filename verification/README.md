# migration_profile

A Verus-verified library for two parts of a virtual machine monitor:

- the live-migration wire protocol: request and response frames, and the
  tables of guest memory ranges that travel with them (merging, partitioning
  into chunks, reading dirty-page bitmaps), plus the bookkeeping of the
  dirty-log worker that collects them;
- CPU profiles: which CPUID bits and MSR values a migratable guest sees, how
  they are derived from the host's values and the definition tables, and how
  a profile's MSR adjustments are applied on a host.

Layout:

- `src/` is the verified library. Each public function states its result in
  `ensures` over spec functions; the laws that relate several functions are
  public proof functions named `lemma_*`.
- `tests/` runs the library on concrete values.
- `app/` is the command-line tool and the I/O around the library: socket
  frames, files, threads, timing, JSON, and the hypervisor interface.
