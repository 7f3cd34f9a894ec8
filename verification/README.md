# add-pr-comment

Posts a comment thread on an Azure DevOps pull request on behalf of an agent, plain or
anchored to lines of a file. The rules are a library verified with Verus.

- `src/` is the library.
  - `params`: what an agent may ask for, and the cleaning of what it wrote.
  - `config`: how a pipeline restricts the tool.
  - `execute`: whether a thread is posted, the body of the request, and what the reply
    means.
  - `anchor`: lines of a file, their length in UTF-16 code units, and what applying a
    suggestion replaces.
  - `url`: the address of the request.
  - `status`, `path`, `pipeline`: thread statuses, file paths, pipeline commands.
  - `text`, `json`: strings, and JSON values as `serde_json` holds them.
- `tests/` runs the library on values.
- `app/` reads settings and files and talks to the server.

The proof functions whose names start with `law_` state what holds of the library as a
whole.
