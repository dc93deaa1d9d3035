# base_connector_tools

Tools for generating connector actions and triggers from API descriptions
(OpenAPI / Swagger documents, or Postman collections converted to OpenAPI),
written in Verus.

- `src/` is the verified library. JSON documents are held as `json::Json`,
  whose model `JsonV` the contracts speak of. It finds operations
  (`openapi`), converts Postman collections (`postman_collection`,
  `postman_body`, `postman_text`), builds the input and output JSON Schemas
  and the executor code of actions (`generate_action`) and triggers
  (`generate_trigger`) through templates (`templates`), and makes the
  decisions of the command-line tools (`commands`).
- `app/` holds the command-line tools `endpoints`, `discover_actions`,
  `generate_trigger` and `generate_action`: fetching and reading files,
  printing and writing the generated files. JSON and YAML text is parsed in
  the library (`documents`), which calls serde_json and serde_yaml.
- `tests/` exercises the library on concrete documents.

`$ref` and `allOf` resolution runs within a budget derived from the size of
the document (`ref_budget`): every chain of references that does not lead
back to where it started fits in it (proved in
`generate_action::resolution_bound`), and one that does is reported as an
error instead of recursing without end. A value met again on the way,
following references or going down through the resolved values, is reported
at once. Resolving every level below a value runs within `deep_budget`,
which likewise only such paths exceed (proved in
`generate_action::deep_bound`).
