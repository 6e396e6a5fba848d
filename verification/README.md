# rebicycler

The decision logic of a Protoss StarCraft II bot, verified with Verus.

- `src/` is the library: building sites and their life cycle (`siting`),
  worker mining (`micro`, `mining`), role bookkeeping (`assignment_manager`),
  build-order trees and their conditions (`build_tree`, `build_order`,
  `build_order_definitions`), construction projects (`construction`), what
  the bot remembers of the game (`knowledge`), its reactions to game events
  (`bot`), bases (`base_manager`), scouting targets (`scouting`), chat lines (`chatter`), army missions
  (`army`) and the text panes of its status display (`readout`, `monitor`).
  Map positions are fixed-point integers (`geometry`); unit, ability and
  upgrade kinds are the game's numbers (`ids`, `unit_types`, `abilities`,
  `upgrades`).
- `tests/` exercises the library on concrete values.
- `app/` is the program around it: the game client, file output, map
  images, and the conversions between the client's values and the
  library's.

`app/` also depends on `num-traits`: the game client's id enums implement
its `FromPrimitive` and `ToPrimitive`, which is how `app/convert.rs` turns the
library's numeric unit, ability and upgrade ids back into the client's enums
and the client's enums into numbers.
