# voxtral_weights

Loads the weights of a speech model from safetensors checkpoints and parts them
by the component that they belong to: the backbone, the flow-matching
transformer and the audio codec. Quantized checkpoints (4 or 6 bits per value,
with a scale and a bias per group) are reconstructed to bfloat16.

`src/` is the library. Its contracts are proved with Verus.

| module | contents |
| --- | --- |
| `files` | choice of the checkpoint files of a directory |
| `safetensors_file` | reading of safetensors files |
| `decode` | decoding of little-endian tensors |
| `float_bits` | conversions between floating-point formats, on bit patterns |
| `packing` | unpacking of quantized values |
| `dequantize` | reconstruction of a quantized weight |
| `shard` | loading of one file of a quantized checkpoint |
| `load` | loading of a whole checkpoint |
| `route` | routing of weights to components |
| `weight_map`, `tensor`, `quantization`, `error`, `text` | the types and strings that these share |

Floating-point numbers are held as bit patterns. The one arithmetic operation on
them, `q * scale + bias`, is a parameter of the functions that need it.

`app/` holds file access, logging and the connection to a tensor library.
