# nanoss

A static site generator whose logic is written and proved in Verus.

- `src/` is the library. Every function in it states what it returns, and Verus
  proves that it does.
- `app/` is the `nanoss` program: the command line, the files, the network, the
  plugins that run in Wasmtime, and what is computed in floating point.
- `tests/` runs the library with the crates that it calls.

## The library

| Modules | What they hold |
| --- | --- |
| `pipeline`, `cache`, `config`, `validation` | a build: its files, its cache, its limits, its report |
| `page`, `frontmatter`, `markdown`, `html`, `islands`, `templates` | from a Markdown file to a page |
| `route`, `fspath`, `pathorder` | where things are written, and under which URLs |
| `organization`, `seo` | lists, tags, categories, sitemaps, feed, `robots.txt` |
| `assets`, `images`, `links`, `semantic`, `data` | style sheets, scripts, images, links, tokens, site data |
| `fingerprint` | what makes a page change |
| `plugins`, `registry` | the hooks, and the plugins that are installed |
| `project`, `theme`, `scaffold`, `watch`, `server` | the commands of the program |
| `metrics`, `observability` | lines for logs, and the build report |
| `text`, `order`, `json`, `pattern`, `calendar`, `failure` | what the others are built from |

What the library takes from other crates stands behind small functions marked
`#[verifier::external_body]`. The comment above each of them says what is believed
of the call. Where a result takes pages to state (rendered templates, highlighted
code, parsed Markdown), it has a name, and the contracts speak of the name.

Functions whose names begin with `law_` state what holds of several functions
together: that no route leaves the output directory, that a second build of unchanged
pages keeps them all, that links get the base path once, that the hooks of plugins run
in their order.

## Dependencies

`parcel_selectors` is named in `Cargo.toml` only to hold it at 0.28.2: later versions
use another `cssparser` than `lightningcss` does. `image` is taken without its `avif`
feature and `reqwest` without TLS, for the many crates that these bring: AVIF variants
and `https` sources fail with the error of those crates.
