# wakeup-herdr

Keeps a machine awake while agents that Herdr manages are working, and lets it
sleep when they have stopped.

The library in `src/` holds the decisions, with their contracts proved by Verus.
It does no input or output.

- `state`: the state machine that asks to acquire and to release the wake
  assertion, with a grace period on either side.
- `watch`: the watcher. It evaluates snapshots and names the next thing to do.
- `agents`: snapshots of the agents.
- `wire`: the messages on Herdr's socket.
- `persist`: the settings, the recorded state, and where they are kept.
- `opts`: the options, from arguments, environment and settings.
- `json`: JSON values, read and written by serde_json.
- `child`, `clock`, `text`, `time`: what the others are made of.

What is taken from serde_json without proof stands at the end of `json`; two
functions of the standard library stand at the end of `text`.

The program in `app/` reads and writes files, talks to the socket, runs other
programs and handles signals.
