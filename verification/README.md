# netmon-rs

A Windows network monitor. It pings a set of targets in turn and shows their
latency, packet loss and history in a WinUI 3 window. Targets can be pinned to a
MAC address, so that they follow the ARP table, and a notification is shown once
when a target's packet loss rises above a threshold.

- `src/` is the library, written in Verus: everything that the monitor decides.
  Each function has a contract, and the `law_` functions of each module state
  what holds of the module as a whole.
  - `schedule` is the monitor's thread as a state machine: which action comes
    next, given what the last one printed and what the clocks show.
  - `monitor`, `auto_interval`, `loss`, `alerts` and `history` hold the pace, the
    samples, the packet loss and the alerts.
  - `ping` and `arp` read what `ping` and `arp` print; `config` holds the settings
    and reads what `ipconfig` prints.
  - `network_info`, `bandwidth`, `notification` and `setup` are the logic around
    what Windows reports, shows and installs.
  - `ui` decides what the cards, the chart and the settings panel show.
  - `names` and `text` are the collections and the text functions under them.
- `tests/` runs the library on concrete values.
- `app/` is the program around it: threads, files, console programs, Windows
  calls and the window.
