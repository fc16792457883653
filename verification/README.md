# audio_spectrum

A real-time audio spectrum analyser: audio comes from the microphone (or a WAV
file), is split into chunks, turned into eight octave-band levels by an FFT, and
shown on the terminal (as text or as bars) or on an SSD1306 OLED screen.

- `src/` is the verified library (Verus): chunk assembly from a sample stream
  (`chunk`), the refresh schedule of the displays (`refresh`), the terminal bar
  rendering (`bars`), the OLED layout (`oled`), and the display constructors and
  command-line choice of display (`display`).
- `app/` is the program around it: audio devices and files, threads and
  channels, the FFT and all level arithmetic (which is floating point), and the
  drawing and printing.
- `tests/` exercises the library on concrete values.
