# OSS Drop, verified core

The logic of a desktop uploader for Aliyun OSS, proved with Verus.

- `src/text.rs`: trimming, splitting and joining strings, with their models.
- `src/ordered.rs`: code-point order and `PrefixSet`, a sorted set of strings.
- `src/paths.rs`: prefix normalisation, upload-path checks, the prefixes of an object key.
- `src/config.rs`: region and settings normal forms, save planning, command preconditions.
- `src/oss.rs`: the calls into `aliyun-oss-client` and `urlencoding`, key decoding, object URLs.
- `src/listing.rs`: listing queries, page refinement, the child-prefix pager.
- `src/scan.rs`: the object-key scan that derives prefixes page by page.
- `src/crawl.rs`: the breadth-first prefix crawl used when the fast scan fails.
- `src/upload.rs`: upload keys, content types and per-file reports.
- `app/`: the Tauri commands, file and network work, and serialisable copies of the types.
