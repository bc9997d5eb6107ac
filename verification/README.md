# outlint-core

The core of a linter for the structure of Markdown documents. It addresses the
nodes of a parsed document by paths, and loads the schema documents that say
which headings a document has, how often, and in which order.

The library performs no I/O. Whoever uses it reads the files, hands over their
text, and presents what comes back.

## Layout

- `src/document_path` — slugs of headings, the grammar of paths, resolution,
  extents, and the enumeration of all paths of a document.
- `src/yaml`, `src/json`, `src/json_value` — reading schema documents with
  exact ranges, and the JSON values they convert to.
- `src/loader` — the loader of schema documents: shape, rules, references,
  constraints, linked JSON Schemas, and the placement of constraints.
- `src/scopes` — named scopes: rules with content, captures, and value orders,
  typed values of the frontmatter, inline JSON Schemas, and the binding of
  locators.
- `tests` — executable examples of all of these.
- `app` — findings with their serialized form, and the library's errors as
  errors of the standard library.

## What is proved

Each function says in its contract what it returns for every input, over
mathematical models of the types. The laws that relate several functions are
public proof functions beside them: that a path is parsed back from its
spelling, that an enumeration holds every node of a document once, that the ids
of one scope differ, that a refused schema is always explained, that every
reported range lies in its source, that labels decide nothing about a load,
that a title with sections loads as the outline it abbreviates, that canonical
floats agree exactly on the same number, and others.

What outside crates compute is named and not restated. Functions that take such
a result as an argument have exact contracts of their own.
