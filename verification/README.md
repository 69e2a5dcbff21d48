# rust-knowledge

Searches the documentation of everything that a Cargo workspace depends on:
READMEs, Markdown below `docs/`, and the documented items of its packages.

The library under `src/` is verified with Verus. It decides which files are taken
up, cuts Markdown into documents, orders the corpus, lays out the index, makes
queries of what is asked for and results of what is found, and writes what the
frontends answer. Its contracts speak of texts as sequences of characters, of
documents and queries by their views, and of the outside crates through the few
items that are marked as trusted, each of which says what is relied upon.

The program under `app/` is ordinary Rust around it: arguments, files, the search
engine's directory, `cargo metadata`, logging, and the tool protocol over standard
input and output. Run as `knowledge-mcp` it serves the tools, under any other name
it is the command line.

Laws about the library as a whole are proof functions whose names begin with
`law_`. Among them:

* headings are nested, no chunk is more than a few bytes (`CHUNK_SLACK`) over its
  limit, and nothing that can be seen of a text is lost as long as its headings
  hold text alone (`chunk_laws`);
* no file over the size limit is taken up, and none twice (`discovery`);
* what is put into the index reads back (`tantivy_index::schema`);
* a filter selects exactly the documents it names, garbage never widens it, and
  what a search finds passes it (`tantivy_index::filter_laws`);
* the snippets of search results are no longer than their limit and an ellipsis
  (`tantivy_index::retriever`);
* in what is made of a query text every asterisk is escaped
  (`tantivy_index::query_text`).

The engine's parser panics on a bare asterisk, and runs out of time or stack on a
text that is nested too deep or says `NOT` too often in a row. It is never given
one: such a text is searched by its plain words, and where those will not do
either, by its identifiers and the filter alone. A log filter on which its parser
would panic is reported and replaced by the default.
