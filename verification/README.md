# voicebot

Verified core of a voice bot platform and of its load tester, written in
Verus.

`src/` holds the logic, each function with a contract that Verus proves:

- `pcm`, `frame`, `rtp`, `audiosocket`, `chunker`: PCM and µ-law codecs,
  RTP and AudioSocket framing, 20 ms frame chunking.
- `vad`: the energy-gated speech detector's state machine.
- `tts`, `elevenlabs`: text normalization for speech, framing of streamed
  synthesis, the ElevenLabs provider's settings and replies.
- `wsserver`, `platform`, `ari`: the WebSocket and Asterisk transports'
  decisions — inbound audio framing, outbound messages, the steps of a
  platform session and its active-session slot, ARI event dispatch, RTP
  numbering, WAV encoding.
- `wsclient`, `loadaudio`, `analysis`, `report`, `report_page`,
  `outcome_table`, `runner`, `config`, `placeholders`: the load tester —
  the messages of a WebSocket session, conversation recordings, audio
  checks, call analysis, campaign statistics, the HTML report page, the
  campaign runner's state, configuration validation and `${VAR}`
  substitution.
- `scheduler`, `dialer`, `storage`, `mockprovider`: campaign dialing rules
  and the steps of one outbound call, storage keys, and the mock provider's
  framing.

`app/` is the load-test program around the library: configuration files,
WAV files, network sessions, and the floating-point parts (energy gate,
resampling, percentages). It also holds the loops that drive the library's
step functions over real connections: the speech detector, the WebSocket
session bridge, the ARI event stream and RTP media bridge, and the
ElevenLabs stream.

`tests/` exercises the library on concrete values.
