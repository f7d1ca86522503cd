# HidForge

A macro engine for any mouse or keyboard on Windows, in two parts.

`src/` is the library, written in Verus: every function states what it returns or changes, and
Verus proves it. It touches neither the system nor the screen. It takes in what devices and users
do, and says what is to be done.

| module | what it holds |
|--------|---------------|
| `text` | numbers as text, UTF-16 |
| `inject` | the records that synthetic input is sent as |
| `clock` | waiting by sleeping and spinning, affinity masks, the generator behind jitter |
| `signal` | what a device can send that a macro can be bound to |
| `device` | device paths, registrations, the fingerprint of the attached devices |
| `report` | the edges in a report of a mouse, a keyboard or any other device |
| `rawinput` | the state behind the listening thread, and the side its user sees |
| `macros` | steps, the recorder, profiles and the store they are kept in |
| `engine` | jobs, the engine between jobs, telemetry |
| `run` | a job in progress: the click loop and playback |
| `app` | what the program does about input, profiles, recording and the window |
| `laws` | what holds of the program as a whole |
| `cps`, `bench`, `theme`, `tray` | the click test, the headless runs, captions, the tray icon |

Properties that span several functions are proof functions whose names begin with `law_`.

`app/` is the program around it: the window, the threads, raw input and synthetic input through
the Win32 API, the file in `%APPDATA%\hidforge\config.json`, and everything that needs floating
point. Rates and delays pass through the library by their bit patterns.

```
hidforge.exe                 the window
hidforge.exe --probe [secs]  what does each button emit?
hidforge.exe --bench         a timing sweep
hidforge.exe --selftest      checks that inject real clicks
```

`tests/` runs the library on concrete values.
