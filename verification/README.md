# openapi2discovery

Converts OpenAPI 3.x descriptions into Discovery-style nested documents: flat
paths such as `/users/{id}/posts/{postId}` become nested resources
(`users` → `posts`), HTTP verbs become method names (`list`, `get`, `create`,
`update`, `patch`, `delete`), component schemas are lifted to the top level
with their `$ref` paths shortened, and OAS 3.1 type-arrays are downgraded to
the 3.0 form.

## Layout

- `src/` — the verified library.
  - `tree.rs`: path templates split into literal and parameter segments.
  - `resolver.rs`: `$ref` names and lookup tables over the components.
  - `json.rs`, `assoc.rs`: JSON values and the ordered key/value lists that hold objects and maps.
  - `parser.rs`: reading a description: JSON decoding, the OAS 3.1 → 3.0
    type-array downgrade, and decoding into the OpenAPI model.
  - `decode.rs`, `outside.rs`: the calls into `serde_json` and `openapiv3`
    that decode, and the moves of their results into the library's types.
  - `openapi.rs`: what the conversion reads from a description.
  - `discovery.rs`: the Discovery document and its mathematical content.
  - `transform/`: the conversion itself (`mod.rs`), the resource tree
    (`resource_tree.rs`) and the schema rewriting (`schemas.rs`).
  - `text.rs`: string helpers, and the two calls into the standard library's
    Unicode tables (`str::to_lowercase`, `char::is_alphanumeric`).
- `tests/` — behaviour on concrete descriptions.
- `app/` — the command-line program: argument parsing, file and stdin input,
  and JSON output.

## Usage

```bash
openapi2discovery input.json -o discovery.json
openapi2discovery input.json --pretty
cat openapi.json | openapi2discovery - -o discovery.json
openapi2discovery input.json --name my-api --version v2
```
