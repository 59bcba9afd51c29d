# rhwp — HWPX section serializer

The part of an HWPX writer that turns the document model into `Contents/section{N}.xml`:
the section body (`src/serializer/hwpx/section.rs`), tables (`table.rs`), form controls
(`form.rs`), the classification of controls that a save loses (`lossy.rs`), and the shared
XML helpers (`utils.rs`, `numfmt.rs`, `context.rs`). `src/model/` holds the parts of the
document model that the serializer reads.

Every function is verified with Verus against a specification of the XML it writes; the
XML events themselves are written with `quick-xml`, whose calls stand behind small
wrappers in `utils.rs` whose contracts say what each event writes.
