# kernel_fixtures

Numeric tests for the NPU kernels of a transformer, with every input synthesized instead of
stored. A fixture records only what each kernel should give back and a checksum of each input;
the inputs themselves are a hash of their names and are made again on every run.

`src/` is a library proved with Verus. Numbers are handled as their encodings, so that every byte
that goes to the device, and every verdict on what comes back, is a function of integers.

| Module | What it holds |
|---|---|
| `binary32`, `binary32_laws` | Exact sums, products, quotients and order of binary32 encodings |
| `bytes` | Little-endian strings |
| `prng`, `prng_laws` | Tensor bytes from a name, and the checksum of a tensor |
| `text`, `table` | Dotted names, and values by name |
| `archive`, `header` | Files in the safetensors format, and what their headers declare |
| `fixture`, `fixture_laws` | Recorded expectations and checksums |
| `synth`, `synth_laws`, `stage` | Inputs held against their checksums, one after the other |
| `rope`, `logits` | Rotation tables, masks, and weights made in blocks |
| `shims`, `shims_media`, `shims_laws` | The inputs of each kernel |
| `outputs`, `compare`, `compare_laws` | What is read back, and how it differs from what is expected |
| `catalogue`, `catalogue_laws` | The tests, their tolerances and their shims |
| `report`, `location` | Verdicts, and where the fixture lies |

`app/` opens the fixture, drives the device and prints. Three things are computed there because they
are floating point: the cosines and sines of the rotation tables, and the mean difference and the
share within tolerance that are printed.
