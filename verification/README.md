# sim_core

The rules of a survival sandbox's simulation as a verified library:
pure functions over fixed-capacity stores, each with a contract that
Verus proves. No I/O, no clock, no threads.

- `src/` — the library. One module per rule set: gathering (`gather`),
  crafting counts (`craft`), the inventory move verb (`inventory`),
  deployables and their verbs (`deploy`), code locks (`lock`), access
  lists (`roster`), upkeep and decay (`upkeep`), held lights (`light`),
  wet and cold (`exposure`), the survival clock (`survival`), loose items
  on the ground (`grounditem`), loot tables and the weighted roll
  (`loot`), the animal roster's
  fixed facts (`mob`), hearing (`noise`), routing arithmetic and the
  search heap (`nav`), input frames (`input`), and the shared records
  (`world`, `movement`, `limits`). Public `law_*` proof functions state
  properties that span several calls.
- Geometry the rules depend on — whether a site is in build reach, inside
  a claim, on buildable ground — is measured by the caller from the
  bodies' float positions and the building store, and handed to the verbs
  as plain values (`SiteFacts`, `in_reach`, and for the upkeep sweep the
  hearth addresses whose claim covers each record). The random words a
  loot roll spends are handed in the same way.
- `app/` — the float helpers (metre/quantum conversion, nav-cell
  conversion, a swing ray against a cylinder) that stay outside the
  verified library.
- `tests/` — the behaviour on concrete values.
