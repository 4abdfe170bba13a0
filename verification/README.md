# mellea

Type-safe generative programming: instructions with requirements, a
verified instruct-validate-repair loop, and typed results.

- `src/` is the library, verified with Verus: conversation context, chat
  messages, cleaning of JSON replies, requirements (the length rules are
  decided in full; for a rule given as user code, the verdict is proved to be
  the one built from the code's answer, while what the code answers is the
  code's own business), the repair-loop decisions (`RejectionSampling::begin`/`step`), prompt building
  for instructions and generative functions, and JSON schema examples.
- `app/` holds what runs around it: the `Backend` trait and the Ollama and
  OpenAI-compatible backends, `Session` with its builder, the async driver of
  the repair loop, and the `serde`/`schemars` bridges (`parses_as::<T>()`,
  `response_json::<T>()`, `parse::<T>()`, `GenerativeSlot::call`).
- `tests/` exercises the library on concrete values.
