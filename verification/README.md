# logslm

A tiny character-level GPT that learns the "grammar" of a service's logs and flags
anomalies by perplexity. The library (`src/`) holds, with Verus proofs:

- `tokenizer`: the character tokenizer (sorted distinct characters, ids, round trip);
- `synth`: the synthetic log generator, its grammar of normal lines and the anomaly
  kinds, with the proof that exactly the anomaly kinds leave the grammar;
- `apache`: anomalies built from real Apache error lines;
- `training`, `model`, `corpus`, `cli`: batch windows, scored positions, weight
  initialisation rules, the causal attention pattern, corpus assembly and the
  command-line choices;
- `text`, `rng`: text helpers and the random draws.

`app/` is the program: the candle model, training, perplexity statistics and I/O.
Run it as `app synth 2500` or `app real 3000` (the latter reads
`data/Apache_2k.log` from Loghub).
