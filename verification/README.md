# limen

The core of Limen, a web application firewall that stands in front of a web
site as a reverse proxy and shows its work on a terminal dashboard. Requests go
through three tiers: rules, a classifier on character n-grams, and a language
model for what the first two leave open.

The library under `src/` is written in Verus. It holds what decides and what
computes, with contracts that are proved:

- `text`, `names`, `json`: text, small collections keyed by text, JSON values
- `engine`: decoding, matching, the rules and their tables, verdicts, the
  features and the model of the classifier, the adjudication by a model
- `storage`, `state`: the blacklist, the bypass paths, the bans and the modes
- `proxy`, `pipeline`: what is made of a request, and its way to an answer or to
  the origin
- `event`, `sink`: records of requests and what is kept of them
- `ratelimit`: the limit on the rate of one client
- `config`, `cli`, `tui`: settings, command line and dashboard, without their
  input and output
- `eval`, `learn`: the offline evaluation on labelled samples and the search for
  new rules

What the library as a whole promises stands in public proof functions whose
names start with `law_`.

The program under `app/` does the input and output: the server, the database,
the network, the terminal, and what is computed in floating point.
