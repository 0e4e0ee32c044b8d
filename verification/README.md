# picomate

Firmware for a Pico W sensor board, split in two:

- `src/` is the verified library. It decodes the inputs, computes colours, sound and text, lays out
  the display, and holds the protocols for bringing up WiFi and for firmware updates. Everything in
  it is plain values in, plain values out.
- `app/` is the program on the board. It reads the pins, drives the radio, the display, the PWM and
  PIO blocks and the flash, and does what the library says. The library keeps chunks and programs in
  vectors, for which `app/heap.rs` is the allocator. A build for the board expects the WiFi chip's
  firmware in `cyw43-firmware/` and the access point's name and password in `.env`.

| Module        | What it decides                                              |
|---------------|--------------------------------------------------------------|
| `board`       | one tick of the main loop, boot and status screens           |
| `button`, `pir`, `encoder` | what pin levels mean                            |
| `buzzer`      | PWM settings                                                 |
| `rgb`         | hue wheel, dimming, the word for a WS2812 pixel              |
| `pio_program` | the PIO program for the pixel and the waveform it produces   |
| `oled`        | where lines of text go on the display                        |
| `text`        | lines of bounded length and decimal numbers                  |
| `wifi`        | the sequence from power-on to an address                     |
| `ota`         | firmware updates over TCP                                    |
| `env_file`    | build-time settings in `KEY=VALUE` lines                     |
