# fscs-monitor

The monitor shown on the display of the computer science student council:
departures of nearby stops, the canteen's menu, upcoming events and the
progress of the semester.

- `src/` is the library, verified with Verus: every public function states
  in its contract what it returns, and the laws that hold across functions
  are proof functions beside them.
  - `text`, `time`, `markup`: searching and cutting text, instants and
    date stamps, HTML and regex lookups.
  - `calendar`, `cal`: events of an iCalendar document and of the public
    calendar feed.
  - `trains`: departures read from the transport API's JSON.
  - `semester`: semesters read from the university's page, the current one
    and its progress.
  - `mensa`, `openmensa`: the day whose menu is shown and the dishes read
    from the menu page or the OpenMensa API.
- `app/` is the web page (Leptos): it fetches the sources, reads the clock
  and shows what the library computes.
- `tests/` runs the library on concrete inputs.
