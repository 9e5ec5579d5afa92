# waybar_vdesk

The logic of a Waybar module that shows Hyprland's virtual desktops, written
in Verus and proved against its contracts.

- `src/hyprland.rs`: instance-signature validation (through the `regex` crate),
  socket paths, command texts, the event filter, and the retry decisions of the
  event listener (jittered exponential back-off through `fastrand`) and of the
  command sender.
- `src/vdesk.rs`: virtual desktops and the manager that takes in Hyprland's
  state reports (keyed by id in a `HashMap`).
- `src/arrange.rs`: desktops with their button texts, ordered by name (a stable
  sort) or with the focused desktop first.
- `src/widgets.rs`: the state behind each button, the CSS class and visibility
  changes an update needs, and the commands that bring all buttons up to date
  and reorder them.
- `src/text.rs`: decimal rendering, prefix tests, lower-casing and the order of names.
- `app/`: the unverified edge: environment, UNIX sockets, JSON decoding with
  serde, and the GTK buttons, each driven by the library's decisions.
