# agent_workbench

Verified building blocks of an agent workbench application: the assembly and caching of
system prompts, the matching of paths in terminal commands, and the rules for files that a
user exports.

- `src/text.rs`: text primitives (trimming, joining, lexicographic sorting, decimal forms)
  with their specifications.
- `src/prompt_types.rs`: the data the prompt builder reads (departments, conversations,
  agents, application state) and the cached snapshot types with their views.
- `src/prompt_keys.rs`: the signatures and cache keys that identify what a cached prompt
  part depends on.
- `src/prompt_blocks.rs`: prompt blocks, preamble classification, the uncached builders of
  the department and environment parts, and the text of a system prompt.
- `src/prompt_cache.rs`: a string-keyed cache over vstd's `StringHashMap`, viewed as a map.
- `src/prompt_manager.rs`: the three prompt caches and the cached assembly of a system
  prompt, with the laws that a repeated request is served from the caches and that a sound
  system prompt cache serves what a fresh build gives for requests whose keys do not
  collide.
- `src/matcher.rs`: a shell-like lexer for command lines and the path candidates a command
  names, for Unix and Windows path conventions.
- `src/windows_path.rs`: Windows path prefixes, roots, absolute paths and `PathBuf::push`,
  as `std::path` defines them on Windows.
- `src/timestamp.rs`: UTC timestamps (`YYYY-MM-DDTHH:MM:SSZ`) from seconds since the epoch,
  over the Gregorian calendar.
- `src/export_path.rs`: export path normalization and the preparation of text and Base64
  exports (Base64 decoding is done by the `base64` crate).
- `app/`: the Tauri commands that write exported files, the process-wide prompt caches
  behind a lock, and logging.

Everything under `src/` is verified with Verus; `tests/` runs the library on concrete
values.
