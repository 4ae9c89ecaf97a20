# Rotary Club

Pseudo-Doppler radio direction finding from stereo audio, with a verified core.

The left channel carries FM audio with the Doppler tone of a rotating antenna,
the right channel a pulse at every pass of the antenna through north. Out come
bearings in degrees, with a confidence and an uncertainty.

## Layout

- `src/` is the library. Every function in it carries a contract that Verus
  proves.
  - `ieee`, `arithmetic`, `single`, `double`: correctly rounded IEEE-754
    arithmetic on bit patterns; `single_laws`, `double_laws`: how it keeps the
    order of numbers, and how far it is off.
  - `signal_processing`: FIR filters, gain control, peak and zero-crossing
    detectors, moving averages.
  - `rdf`: the trackers of the north reference and the bearing calculators;
    `rotation_laws`, `coast_laws`, `dpll_laws`, `simple_laws` and `centroid`
    state what holds of every tick.
  - `processing`, `run`: the pipeline from samples to lines of output.
  - `audio`, `config`, `cli`, `output`, `text`, `fields`, `stats`, `error`:
    capture, settings, formats and messages; `stats_laws`: how the statistics
    of angles turn with them.
  - `display`: what the window shows and when.
  - `simulation`, `tools`: test signals and the tools that measure with them.
- `app/` is the program around it: devices, files, the window, the design of
  the filters, and the functions of the mathematical library.
- `tests/` runs the library on concrete values.

## Numbers

A `Single` or a `Double` is a bit pattern. Contracts speak of the exact result:
`plus_spec`, `times_spec`, `over_spec` and `sqrt_spec` are the numbers nearest
to the exact result, ties going to the even pattern. Sines, arctangents,
logarithms and exponentials are not defined by the standard to the last bit, so
the library takes their values as arguments.

## Trust

Three functions are not proved: the two time stamps in `output`, which read the
clock (of the one in text its layout is claimed), and
`audio::capture::lowercased`, which follows the Unicode tables.
