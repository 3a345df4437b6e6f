# gpt_candle

A small GPT on top of the candle tensor library, verified with Verus.

- `src/custom_tensor.rs`: a dense row-major tensor, and that its cells and its data correspond
  one to one.
- `src/shapes.rs`, `src/ops.rs`: the arithmetic of shapes, and the operations of the tensor
  library with what they do to shapes. Each tests its arguments before the call: shapes that are
  too large, too many dimensions, integers, repeated cells and missing elements, where the tensor
  library can panic on them, come back as errors.
- `src/scope.rs`, `src/names.rs`: named variables, the layers made of them, and that no two
  layers of a model share one.
- `src/feed_forward.rs`, `src/attention.rs`, `src/transformer.rs`, `src/gpt.rs`: the model. A
  contract states the shape of the output, from which tensors each step is computed, and on which
  inputs the call succeeds: tensors of single precision on the CPU, with layers that are ready.
- `src/tokenizer.rs`, `src/tokens.rs`, `src/batches.rs`: text as tokens, and the training batches.
- `src/training.rs`, `src/generate.rs`: the loss, a training step, and greedy generation.
- `src/parameters.rs`: the number of parameters of a model.
- `app/main.rs`: trains a model on `the-verdict.txt`.

Floating point values are outside of what is proved. Where the tensor library computes them, the
contracts say which operation was applied to what.
