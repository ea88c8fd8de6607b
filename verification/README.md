# resumeclaw

A chat agent that edits and compiles a LaTeX resume, reachable from the
command line and from Discord.  The model (an OpenAI-compatible service,
Anthropic, or a scripted model for local runs) reads and rewrites the
workspace's `resume.tex` through tools, compiles it with `tectonic`, and can
mail the PDF to an allow-listed address.

## Layout

- `src/` — the library, verified with Verus: the agent's conversation and
  its developer commands, the tool rules and reports, the command-line and
  Discord channel decisions, the request layout and answer reading for each
  model service, the SMTP settings and checks, the workspace and template
  rules, and the text operations they rest on.  Each function states its
  result in its contract; the laws that span several functions are public
  proof functions.
- `app/` — the program around it: environment, files, processes, HTTP,
  SMTP, the Discord gateway and the async loop.  It hands plain values to the
  library and performs what the library decides.
- `tests/` — tests of the library on concrete values.
