# shopify-scraper

A Shopify product scraper whose core is verified with Verus.

- `src/` is the verified library: the canonical product model and the
  transforms from Shopify's `products/<handle>.json`, store-domain
  normalisation, product discovery from listings and sitemaps, the retry
  and rate-limiting decisions of the fetchers, the data-wrangling pipeline
  (validation, cleaning, enrichment, deduplication, merging), and the
  paths and URLs of the actor's datasets. Money is held in whole cents and
  other fractions in thousandths; timestamps are seconds and nanoseconds
  since the Unix epoch. Price text is read in the float syntax (sign,
  digits, point, exponent, `inf`, `nan`) and rounded to the nearest cent,
  amounts beyond the `i64` range held at `±i64::MAX` cents; range checks
  compare the number a field writes exactly with their bounds. The
  completeness score is the text Rust prints for the binary64 quotient,
  computed exactly in integers (`src/binary64.rs`).
- `app/` is the command-line program around it: argument parsing, HTTP,
  caches, tasks, clocks, JSON/CSV output and the file system.
- `tests/` exercises the library on concrete values.
