# more_interesting

The logic of the More Interesting link-sharing site as a verified library:
every function in `src/` carries a contract that Verus proves.

- `prettify`, `body`, `title`, `scan`, `html`, `plain`: the plain-text
  markup of comments and titles (links, `@` mentions, `#` references,
  tables, code blocks, BBCode), tokenized byte by byte and rendered to
  sanitized HTML; text that uses no syntax comes out as written, with each
  run of spaces as one space. An unclosed `<table>` or `<code>` block runs
  to the end of the text.
- `base32`, `base128`, `bytes`: the compact text and binary forms of ids,
  and the UUIDs that long ids stand for.
- `names`: site data held in memory, whose answers to the renderer are
  stated in its contracts.
- `avatar`: identicons, from the rasterized patches to the PNG file, and
  the referrer check of the identicon endpoint.
- `password`: PBKDF2 password hashes with their version and salt.
- `site`, `session`, `search`, `submit`, `posts`, `accounts`: the
  decisions of the request handlers (redirects, votes, trust levels, search
  parameters, submitted posts and their domains, signups, messages and
  comment notifications).
- `template`, `filters`, `customization`, `robots`, `invites`: page values,
  the filters of the page templates, and the invite tree.

Calls into outside crates (`ammonia`, `v_htmlescape`, `url`, `ring`,
`image`, `percent-encoding`, `byteorder`, `rand`, `uuid`, `chrono`, `chrono-humanize`) go through small trusted
wrappers whose contracts are stated next to them.

`app/` is a thin command-line front end with the serde forms of ids, the
clock read behind relative dates, and the floating-point ranking.
