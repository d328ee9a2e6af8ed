# audio_aura

The logic of a voice secretary: hearing, cutting speech into sentences and paragraphs, calibrating
what was recognised, deciding what it asks for, and keeping it.

- `src/` is a Verus library. Every rule stands there with a contract; times are whole microseconds
  and every clock reading, network answer and file is an argument.
- `tests/` runs the compiled library.
- `app/` is the program around it: sockets, files, the database, HTTP and threads.

| module | what it holds |
|---|---|
| `types`, `text`, `clock`, `json`, `codec`, `wav` | data and encodings |
| `vad`, `ingest`, `pipeline`, `recognizer` | from samples to paragraphs |
| `prompt`, `calibrator`, `context`, `decision`, `router`, `composer` | from paragraphs to decisions |
| `audio_store`, `archive`, `hub`, `store`, `report` | what is kept |
| `models`, `tts` | providers of recognition, language and speech |
| `daemon`, `familiar` | what surrounds the voice |

Laws that span several functions are public proof functions whose names begin with `law_`.
