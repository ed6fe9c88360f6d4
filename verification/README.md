# Hyprland Minimizer

Minimizes windows to the system tray of Hyprland: a window is parked on the hidden workspace
`special:minimized`, and a tray icon with a menu brings it back.

`src/` is the library. It decides what is to be done, and Verus proves that it decides as its
contracts say:

- `desktop`, `resolve`: which `.desktop` entry a window belongs to
- `hypr`: windows, and the Lua expressions that move, focus and close one
- `session`, `action`: minimizing a window, and acting upon a click, step by step
- `notifier`, `dbus_menu`: what the tray icon and its menu answer
- `tray`, `tray_menu`, `menu`: listing the tray, and reading the menus of its items
- `watcher`: the registry behind `hyprland-minimizer watch`
- `command`: the command line
- `text`, `number`, `order`: strings

`app/` is the program: it talks to Hyprland and to the session bus, and reads files.

    hyprland-minimizer [ADDRESS]                           Minimize the active window (or one by address)
    hyprland-minimizer list-tray [mine|native]             List tray items; optionally only yours / only app trays
    hyprland-minimizer tray-menu <bus> <path> [id]         List a tray item's menu entries (id 0 = root)
    hyprland-minimizer tray-menu-click <bus> <path> <id>   Trigger a menu entry
    hyprland-minimizer resolve <class> <pid>               Print "name|icon" for a window
    hyprland-minimizer watch                               Run a StatusNotifierWatcher daemon

`list-tray` prints `name`, `icon`, `bus`, `path` and `pid`, and `tray-menu` prints `label`, `id`
and `kind`, each line with the ASCII Unit Separator (0x1f) between its fields.
