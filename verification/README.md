# codex_plan

Verified pieces of the Codex agent core, written in Verus.

- `text`: character-level helpers (trimming, prefixes, tokens) proved against
  sequence specifications.
- `segment`, `tagged`: a streaming, line-based tag parser. Each line is held
  back until it can no longer be a tag line; the parser's behaviour is given
  by a character-by-character state machine (`step`, `feed`, `finish_spec`).
- `plan`: the proposed-plan parser built on it, and `strip_proposed_plan_blocks`
  / `extract_proposed_plan_text`.
- `freeform`: reading the freeform input of the artifacts tool (raw JavaScript
  with an optional `// codex-artifact-tool:` pragma).
- `role`: agent roles, their profiles, and how a profile overrides a config.
  The orchestrator's base instructions (the text of its agent template) are
  an argument, read by the caller.
- `splice`, `restrip`: the specifications and lemmas behind the text and
  stripping laws.
- `laws`: properties proved across calls: how a stream is split into chunks
  does not change what the parser finds; blocks are balanced over any number
  of calls; no input character is lost; text is always joined; stripping is
  idempotent and leaves text without a plan unchanged; role application is
  idempotent and the default role changes nothing.

`app/` holds the serde-facing copy of `AgentRole` and `enum_values`, which
serializes each role to JSON.
