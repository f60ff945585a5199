# lockpicking

The rules of a small lock-picking game: a lock of six spring-loaded pins, a
lockpick that moves under them, and a stock of lockpicks that a missed pick may
break.

- `src/` is the library, verified with Verus. `components` holds the pins
  (with their patterns of slow and fast rises), the lockpick and the phase
  markers of each pin; `rules` holds every decision of the game (triggering a
  pin, resolving a pick, the automatic attempt, the win check, the lockpick's
  moves, the initial layout); `utils` chooses random pin indexes; `random`
  holds the two calls into `rand`; `laws` states and proves what holds across
  steps (patterns cycle, a missed pick never unlocks or moves a pin that holds
  its place and makes exactly min(2, eligible) unlocked pins fall, the lock is open exactly when every pin is unlocked,
  and so on).
- `app/` is the bevy program around it: window, input, sound, the timed motion
  of the pins and the lockpick (in floats), and the ECS plumbing that hands the
  library plain values and applies what it decides.
- `tests/` exercises the library on concrete values.
