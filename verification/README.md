# autogamivoid

Scheduled automation that keeps a PC game listing site stocked from two
source sites (Steamrip and SteamUnlocked): it scrapes their listings and A-Z
catalogs, matches the entries into one game per title, enriches each game
from the Steam storefront, writes SEO copy, and creates or updates the
listing through the site's owner API, remembering in `state.json` what it
has published.

The decision-making is a library verified with Verus; the command-line
program around it does the I/O.

## Layout

- `src/` — the verified library
  - `text.rs` — character-level string helpers and their specifications
  - `json.rs` — JSON replies as a tree the readers walk
  - `slug.rs` — stable slugs ending once in `-free-download`, within 100 bytes
  - `models.rs` — the data model (source entries, matched games, listings, state)
  - `matching.rs` — pairing the two sources' entries into games
  - `downloads.rs` — which download a listing publishes
  - `scraper.rs`, `page.rs` — listing pages, titles, versions, game pages
  - `crawl.rs` — the A-Z catalog walk and its page bound
  - `seo.rs` — SEO title, descriptions and the Markdown article
  - `enrichment.rs` — Steam replies and data, images, fallbacks: the complete listing
  - `index.rs` — the published-listing state and the manifest
  - `config.rs` — configuration and publish mode
  - `client.rs` — how API responses are classified and retried
  - `workflow.rs` — per-game steps, publish gates, categories, payloads
- `app/` — the program: arguments, config and state files, HTTP, the run loops
- `tests/` — tests of the library

## Running

```
autogamivoid [--dry-run] [--action sync|catalog|updates|reconcile|reset] [config.json]
```

The config path defaults to `$AUTOGAMIVOID_CONFIG`, else
`autogamivoid/config.json`. A dry run validates every listing against the
publish gates and writes nothing. `reset` deletes every listing on the site
and clears the state, so that the next catalog run relists from zero.
