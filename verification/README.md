# hrtf_synth

Personalised HRTF synthesis from anthropometric measurements, with its
non-numeric core verified in Verus.

- `src/` — the verified library: the binary model file (`model`), the speaker
  impulse-response file read by the audio processing object (`speaker_irs`),
  the container of synthesised responses (`hrtf_data`), the HeSuVi export
  layout (`hesuvi`), the whole-sample circular delay (`delay`), the spectrum
  mirroring for minimum-phase reconstruction (`spectrum`), the network input
  vectors (`anthropometry`) and the real-time convolver's channel map, delay
  lines and passthrough (`convolver`). Floating-point values that pass
  through file formats are held as their IEEE-754 bit patterns; containers are
  generic over the sample type.
- `app/` — the command-line synthesiser and the floating-point signal path
  (neural networks on nalgebra, FFTs on rustfft, interpolation, WAV output on
  hound), plus the C entry points of the audio processing object.
- `tests/` — tests of the library.
