# unifi_protect_bulk_download (verified library)

The planning logic of a command-line tool that bulk-downloads recordings
from a UniFi Protect NVR, written in Verus and proved against its contracts.

`src/` is the library:

- `calendar` — dates, times of day and date-times with chrono's range and
  leap-second representation, their mathematical views, and the calendar
  lemmas (day numbers, next and previous day).
- `chrono_bridge` — the calls into chrono (parsing, adding seconds, next day,
  formatting) behind trusted items.
- `args`, `error` — the command-line values and the errors of planning.
- `hour_window` — parsing of `--hours START-END`.
- `cameras` — which cameras a run downloads.
- `frames`, `frame_laws` — the hourly and daily time frames and what every
  run of them satisfies (inside the range and window, in order, covering,
  and the same seconds in both modes).
- `download` — reading the date range, the timelapse frame rate, the order
  of the downloads, whether an existing file is written over, and the
  sanitized name of each video file.
- `text` — trimming, ASCII case folding and character conversions.

`app/` is the program around it: clap parsing, the server session, local
time conversion, file checks and the downloads.
