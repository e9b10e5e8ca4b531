# rsll

A live MIDI looper. It takes the messages of a MIDI controller, records what is played into looping
tracks, plays them back on every tick of a master clock, and is driven from the controller alone:
arm, punch in, overdub, undo, mute, clear, switch scenes.

The library under `src/` is verified with Verus. It does no input or output: every entry point takes
the engine's state and an event, changes the state, and returns what is to be sent. The program under
`app/` connects it to ports, files, threads and the terminal.

| Module | What it holds |
|--------|---------------|
| `domain` | events, held notes, velocity scaling, the engine's state and its model |
| `config`, `text` | scene and hardware settings and how their texts are read |
| `recording`, `midi` | what a message from the controller brings about |
| `clock`, `period` | one tick of the clock, and the span after which it wraps |
| `scene`, `session` | loading, switching and reloading scenes |
| `ports` | finding ports by regular expression |
| `export`, `sorting` | the loops as a standard MIDI file |
| `display` | the texts of the terminal screen |
| `readiness` | telling beforehand whether the engine can take an event |
| `output`, `tables` | what is sent, and walking maps |
| `laws` | what holds of the looper as a whole |

The state of the engine has a mathematical model, `domain::Engine`. The contract of
`midi::handle_midi_message` says that the state becomes `midi::reaction(..).engine` and that exactly
`midi::reaction(..).sent` goes out; `clock::clock_tick` and the scene functions are stated in the
same way. The laws are proved of these functions.

Two outside functions are trusted: matching a regular expression (`regex`) and writing a MIDI file
(`midly`). Their results are named, not described.
