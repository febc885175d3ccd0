# http_request_client

The core of a language server for `.http` files, in Verus, and the program around it.

A `.http` file holds HTTP requests as plain text. Above each request the editor shows a
`Send request` button; a click sends the request and shows the response in a result tab.

## Layout

- `src/` is the verified library.
  - `text`, `scan`, `digits`, `hash`, `table`: texts, numbers and maps.
  - `document`: file variables and requests of a `.http` file.
  - `vars`, `dotenv`, `includes`, `timeout`: `{{...}}` variables, `.env` files, files in a
    request body, and the limit of a request.
  - `json`: JSON values, as far as chaining and the protocol read them.
  - `lens`, `click`: the buttons, and the request that a click on one of them means.
  - `result_tab`, `session`: the result tab and the state of the server.
  - `exchange`, `report`, `store`: what is sent and kept, what the user reads, and the
    file of stored responses.
  - `paths`, `artifacts`: where files live, and the private directory.
  - `extension`: where the editor extension finds the binary.
- `app/` is the program: the protocol over stdio, threads, files, the network and the
  editor extension.
- `tests/` runs the library.

## What is proved

Every public function states its result exactly. What holds across functions stands in
public proof functions whose names begin with `law_`: that a click never opens two tabs,
that a closed document keeps its stored responses while another one of its folder is
open, that a request with unresolved variables is not sent, that a button finds its
request after edits, and so on.

Calls into other crates stand behind small functions whose contracts are believed; each
says in its comment what it claims.
