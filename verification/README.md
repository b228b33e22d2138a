# mdbook_verified

The logic of the mdBook book builder as a Verus library: every function in
`src/` carries a contract that Verus proves.

## Layout

- `src/` is the verified library. It holds the book's data structures and
  configuration, the ordering of preprocessors and renderers, the Markdown
  tree builder and HTML serializer, the table of contents, page data, print
  page, search documents, redirects, static files and their hashed names,
  link rewriting, and the line-range and anchor selection of included files.
  Calls into outside crates (pulldown-cmark and its Markdown writer,
  serde_json, regex, url, shlex, ammonia, sha2, topological-sort,
  font-awesome) sit behind small trusted functions whose contracts say
  what the library relies on; public `law_*` proof functions state the
  properties that hold across calls.
- `app/` is the ordinary Rust around it: reading and writing files, the
  environment, running external commands and rustdoc, handlebars templates,
  the html5ever tokenizer (handed to the library's tree builder as a
  closure), the elasticlunr index, and the serde forms of the library's
  types.
- `tests/` runs the library on concrete inputs.
