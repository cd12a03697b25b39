# meeting_agent

The verified core of a meeting transcription and summary agent, written in
Verus: every function under `src/` carries a contract that Verus proves.

- `src/` — the library: configuration (defaults, environment overrides,
  validation, masked secrets, `config set` keys), the job table, summary and
  refinement prompts and the reading of model replies, chunking of
  transcripts, transcription upload and retry decisions, putting chunk
  transcripts back in order and merging them, SRT and WebVTT export,
  recording metadata from file names, the import and re-transcription
  pipelines' decisions, the live-bot orchestrator's decisions, webhook
  reading, the voice-bank grouping (union–find) and guest naming, the rules
  of the meeting store that need no database, and the speaker-separation
  service's request checks.
- `tests/` — tests run against the compiled library.
- `app/` — the command-line tool around the library: configuration file and
  environment, HTTP calls to the transcription and chat services, audio
  conversion with ffmpeg, meeting
  directories on disk, and the parts that work on floating-point values
  (timestamps split into clock parts, chunk lengths, temperatures).
