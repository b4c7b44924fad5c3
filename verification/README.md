# ai_credit_status

What AI providers report about credits and spend, brought into one form for a
status bar: a share between 0 and 1, a short label, a tooltip and the page where
the account is managed.

Zed's own models, GitHub Copilot, OpenRouter, OpenAI, Anthropic and Mistral are
known. The last two do not say what was spent, and OpenAI says it only to some
keys; there a monthly budget stands in for an estimate.

## How a fetch runs

`session::fetch_credit_snapshot` gives the first `Step`. Each step names one
piece of outside work (look up a key, read the clock, send a request) and has a
`resume` that takes what came of it to the next step, until `Step::Done`. The
library decides; the program in `app/` does the outside work and nothing else.

## Layout

- `session`: the steps of a fetch. `fetch_laws`: what holds of whole fetches.
- `zed`, `copilot`, `openrouter`, `openai`, `estimate`: one provider each, the
  last one for those that do not report spend. `laws`: what holds of their
  snapshots. `openai_laws`: what holds of the spend that OpenAI reports.
- `keys`, `request`, `error`, `snapshot`, `color`, `text`, `clock`, `json`: the
  parts that they share.
- `number`, `float`, `decimal`: single and double precision numbers, held as bit
  patterns, with their arithmetic and their decimal text. `grid`, `round`,
  `ranges`, `order`: the theory behind them.

## What is not proved

A few functions of `std`, `chrono` and `serde_json` are called as they are. Each
stands behind one item in `text`, `clock` or `json` whose comment says what is
taken for granted.
