# mem_core

A local-first knowledge keeper: notes are Markdown files with a small
frontmatter block, a SQLite index makes them searchable, and git keeps vaults in
sync. `#tags` and `[[links]]` written anywhere in a note connect it to others.

The library in `src/` is verified with Verus. It holds the logic of the vault:

- `parser` — the tag and link grammar (`extract_tags`, `extract_links`);
- `util` — slugs of titles;
- `storage` — note files: rendering the frontmatter, taking it off again,
  where a note's file lives, preparing a write;
- `note` — creating, updating, listing and showing notes (the parts that
  decide; the index and the disk are the caller's);
- `search` — query plans, highlighting, snippets, ranking of hits;
- `sync`, `git` — reading git's answers, and each git operation as a state
  machine that asks for one git run at a time;
- `vault`, `schema` — vault layout and config, picking the vault, migrations;
- `mcp` — the request and answer types of the MCP tools;
- `watch` — when to tell a front end that the vault changed;
- `stamp`, `text`, `domain`, `types`, `error` — instants, strings, the data.

`app/` is the `mem` command line (and `mem mcp`, the MCP server): it reads and
writes files, talks to SQLite and runs git, handing plain values to the library.
