# ocard

Core of a DIT footage backup tool: card copying with xxHash3-64 verification and
resumable manifests, project folders and naming rules, camera and card
registration, burst grouping, transcode queues, half-day delivery packages and a
multi-workstation audit log.

`src/` is a Verus-verified library. Each public function states its result in its
`ensures` clauses, over spec functions and views; the laws that tie several calls
together are public proof functions (for example `lemma_packaging_deterministic`,
`lemma_bursts_partition`, `lemma_sanitized_is_portable`). Calls into `chrono`,
`xxhash-rust`, `kamadak-exif` (EXIF fields), `image` (JPEG thumbnails), `regex`
(the `\d` digit class), `std::path` and the standard library's Unicode case
mapping stand behind small trusted wrappers whose contracts name what those calls
return.

| module | contents |
|---|---|
| `text` | character classes, trimming, number formatting and parsing, search, lexicographic order |
| `datetime` | calendar date-times and the calls into `chrono` |
| `paths` | the calls into `std::path` |
| `naming` | file-name sanitising, camera codes, project ids, folder templates, time slots, finished-video names |
| `device_store` | camera and card registration |
| `manifest` | the copy manifest |
| `copy_engine` | the decisions of a card copy, step by step |
| `hash` | xxHash3-64 text of bytes and streams |
| `transcode` | encoder choice, ffmpeg command lines, the job queue |
| `packaging` | half-day buckets, delivery packages, the upload list |
| `volume` | removable volumes, mount-table lines, insert / remove events |
| `audit_log` | audit entries and the workstations that wrote them |
| `sorting` | stable sorting by a text key or by time |
| `project_store` | project creation, folders, summaries |
| `media_indexer` | media extensions, EXIF camera data and shooting times, JPEG thumbnails |
| `culling` | burst grouping and the face detector interface |
| `config` | workstation settings and machine ids |
| `sums` | sums of integer sequences |

`app/` is the plain Rust around it: file system, processes, serialisation, and
the floating-point picture metrics (decoding pictures to grey levels for them);
it reads files and hands their bytes to the library. `tests/` exercises the
library.
