# layerlens-core

The core of LayerLens, a read-only PSD viewer: the bounded PSD container
check, the check of decoded layers against the container records, the
document, preview, selection and task registries, and their resource ledgers.

- `src/` is the library, verified with Verus. Each public function states its
  result in its contract. Laws that span calls are stated either in those
  contracts (what a call keeps unchanged, what a second call does) or as
  public proof functions next to the code they speak of: the decimal round
  trip, bounded group nesting, abutting text pages, task paging, content
  continuation, idempotent release, and the ledgers' reserve/release balance.
- `tests/` runs the library on concrete files and values.
- `app/` is the runtime around it: file reads, the `ag-psd` decoder run, the
  worker thread of the document service, floating point region geometry and
  the serialisable contract types.
