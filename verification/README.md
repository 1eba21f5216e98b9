# blog

The verified core of a Markdown blog: what its server decides and computes,
with contracts proved by Verus, and a thin axum server around it.

## Layout

- `src/` — the library, every item of it verified:
  - `text` — character classes, trimming, searching and ordering of strings;
  - `shared`, `validation` — HTML escaping, slug/tag/email checks, the input
    validators and their error messages, the retry schedule and the
    decisions of a retried operation;
  - `api` — the database queries the page functions send, tag counting, post
    dates, the contact form's spam check;
  - `markdown` — image links, code highlighting and math around the
    CommonMark renderer;
  - `feed` — the RSS feed;
  - `activity` — decoding stored notes records and the query creating one;
  - `pages`, `pager` — date labels, table of contents, archive groups, tag
    selection and the "load more" streams;
  - `security`, `rate_limit`, `env`, `surreal`, `redirect` — security headers,
    per-client rate limiting, configuration checks, database connection
    settings, the sitemap, and the server's redirects and listening address;
  - `session` — the steps that open a database session (connect, sign in
    with each set of credentials in turn, select the namespace), each retried
    on its own back-off schedule, as a state machine whose caller performs
    the actions.
- `tests/` — tests of the library on concrete values.
- `app/` — the HTTP server: it reads the environment, the clock and the
  network, and leaves every decision to the library. It carries no database
  client, mail transport or page renderer, so it serves the health endpoint,
  the static assets and the redirects only; the posts, feed, sitemap, contact
  and activity routes are not served. Their queries, replies, retry decisions
  and session opening are in the library, ready for a server that has those
  clients.

Calls into regex, pulldown-cmark, syntect, KaTeX, chrono, rss and tokio-retry
stand behind small trusted wrappers, each documented with what its contract
claims of the outside code.
