# longctx

A long-context benchmark toolkit: it generates synthetic suites (needle,
multi-needle, conflict, multi-hop, order-dependent, position-sweep,
hallucination), runs them against OpenAI-compatible providers, grades the
answers, routes `context = "auto"` tests with a local context index, and
summarizes, compares and scores the results.

## Layout

- `src/` — the library, verified with Verus. Each module states its
  behaviour in `requires`/`ensures` contracts over spec functions:
  - `benchmark` — the data model (tests, results, configuration);
  - `text`, `paths` — character and path helpers;
  - `grader` — the graders and the LLM-judge request/verdict logic;
  - `context_index` — index building, validation and the local router;
  - `generator` — the synthetic suites;
  - `runner` — run decisions: context resolution, retries, result rows,
    request logs, test selection, output guards;
  - `report`, `report_page`, `compare`, `probe`, `score` — summaries and
    their pages, comparisons, the context probe search and the score card;
  - `validator` — configuration and benchmark checks;
  - `tokenizer`, `hashing` — calls into `tiktoken-rs` and `sha2`.
- `app/` — the `longctx` command line: file and network I/O, the async
  request loop that performs what the library's `TestRun`, `RetryLoop` and
  `ProbeSearch` ask for, serde copies of the library types, and the
  floating-point figures (pass rates, scores, trend charts).
- `tests/` — tests of the library's public functions.
