# rvc_realtime

A realtime voice changer: audio comes in from one device, is converted block by block with an RVC voice
model and goes out to another. The decisions of the program are a library that is verified with Verus; the
window, the devices, the GPU and the arithmetic on samples are around it.

- `src/` is the library. Samples, times and levels are the bits of floating-point numbers there, so it
  decides where they go and compares them, and computes nothing with them.
- `app/` is the program: the window, PortAudio, ONNX Runtime and CUDA, and the floating-point arithmetic. It
  checks what the library asks of its callers before each call.
- `tests/` runs the library.

## The library

| Modules | What they decide |
|---|---|
| `pickle`, `json`, `model` | reading a voice model out of a `.pth` archive or a `.safetensors` file |
| `voice_model`, `native` | whether a voice model can be used, which template it fits, and where its weights go |
| `config`, `dsp`, `engine`, `infer` | the ordinary path: lengths, resampling, windows, the pitch curve, the ports of its graphs |
| `startup`, `input`, `pitch`, `mel`, `tg`, `generator`, `deiteris` | the low-latency path: lengths, resampling across blocks, the pitch history, the state of a stream |
| `gpu_runtime`, `gpu_pre`, `gpu_pitch`, `gpu_pipeline`, `plan` | the path on the device: what each port is bound to, and the order of the steps |
| `processor`, `owner`, `realtime`, `monitor`, `onset` | the stream: devices, callbacks, the monitor's queue, the measured latency |
| `settings`, `session`, `control` | the configuration and its presets, a run from start to stop, and when it is started again |
| `bits`, `text`, `error` | numbers by their bits, strings, and what can go wrong |

Properties that span several functions are public proof functions whose names start with `law_`.

What the library takes on trust of other crates is said above each function that calls them: of
`serde_json` in `json` and `voice_model`, of `zip` and `safetensors` in `model`, of `sha2` in `voice_model`,
and of `String` in `text`.
