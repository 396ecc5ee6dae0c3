# voice_harmonics

A real-time microphone spectrogram for overtone singing, split in two:

- `src/` is a verified library (Verus) holding the integer core of the
  analyser: the circular analysis history and the waveform history
  (`history`, `waveform`), the per-repaint sample pump that reads the capture
  queue and decides when an analysis frame is complete (`frontend`), the
  scrolling spectrogram image with its column ring and display order
  (`waterfall`), frame partitioning and waveform column mapping (`layout`),
  note and keyboard arithmetic (`notes`), the shared drone settings (`drone`)
  and the tuning constants (`config`).
- `app/` is the program: audio devices (cpal), the FFT and every `f32`
  computation (levels, colours, pitch estimation), the window and the imgui
  user interface.
