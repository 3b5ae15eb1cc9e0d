# esp32s3_i2s_mic_idf

Streams the PDM microphone of a Xiao ESP32-S3 Sense: over USB serial, to one websocket client
at a time, or to any number of websocket clients at once. The last of these shares frames of at
most 640 bytes, 20 ms of sound, and lets a longer read of the microphone go: a read that fills its
1024-byte buffer is not sent to anybody.

`src/` is the library, verified with Verus. It holds everything that the programs compute or
decide; the contracts say what each function returns and the `law_*` proof functions what holds
across functions.

| Module | What it holds |
| --- | --- |
| `pcm` | attenuation, gain, the s16le form of samples |
| `capture` | configuration of the receive channel, stages of the capture task, steps of its streams |
| `counter` | counts that wrap around |
| `frame_pool` | the pool of reference-counted frames |
| `subscribers` | subscribers, the start of capture, what each connection does |
| `audio_queue` | the bounded queue of raw frames |
| `http`, `handshake`, `upgrade` | from the bytes of a request to a websocket or a refusal |
| `session` | one client of the websocket server, step by step |
| `wifi` | credentials, retries, the address that is shown |
| `server` | the accepting loops and the start of the programs |
| `dotenv` | credentials from `.env` |
| `serial` | the serial reader on the host |
| `text` | decimal numbers |

`app/` is what drives it: the ESP-IDF drivers, sockets, tasks and the async runtime. `MIC_PROGRAM`
chooses at build time which program it is: `websocket`, `run-websocket`, `serial-to-stdout`,
`embed-env`, or the USB firmware when it is not set.

`tests/` runs the library with the crates that it calls (`httparse`, `embedded-websocket`,
`heapless`).
