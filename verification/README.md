# dap_sampler

A high-speed variable sampler for Cortex-M targets through a CMSIS-DAP v2
probe: it reads memory words at a fixed rate over SWD, shows them as
waveforms and a watch table, and can list the variables of a firmware
image to choose from (from the image's symbol table).

- `src/` is the library, verified with Verus: DAP command encoding and
  response parsing, the SWD bring-up as a state machine (reply in, next
  command out), the acquisition pipeline's command building, flow control,
  response framing and buffers, the variable list of a firmware image
  (images are read through their symbol table only: their debug sections,
  `.debug_info` and `.debug_abbrev`, are not read, so structures and
  arrays are not expanded when an image is loaded; a list built from
  already-parsed debug information is also offered), command-line
  argument parsing, probe selection, and the state of the interface panels.
- `app/` is the program around it: USB transfers (rusb), threads, the
  command line (clap), terminal output, and the egui window, including all
  floating-point work.
- `tests/` exercises the library on concrete values.
