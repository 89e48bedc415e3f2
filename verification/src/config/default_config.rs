//! The default configuration file.

use vstd::prelude::*;

verus! {

/// The default configuration file with all options documented.
pub const DEFAULT_CONFIG: &'static str = "# Clux Terminal Multiplexer Configuration\n# ========================================\n#\n# This file documents ALL available configuration options.\n# Edit any value to customize your setup.\n\n# ==============================================================================\n#                              SERVER SETTINGS\n# ==============================================================================\n# These settings control the clux server process.\n\n[server]\n# Log level: \"error\", \"warn\", \"info\", \"debug\", \"trace\"\nlog_level = \"info\"\n\n# Directory for log files. The server writes to {log_dir}/clux-server.log\n# Defaults to ~/.local/state/clux/ if not specified.\n# Set to \"\" (empty string) to disable file logging and only log to stderr.\n# log_dir = \"~/.local/state/clux\"\n\n# ==============================================================================\n#                              KEYBINDINGS\n# ==============================================================================\n#\n# Key Syntax:\n#   - Modifiers: ctrl, alt, shift, super (cmd on macOS)\n#   - Separator: + (e.g., \"ctrl+shift+c\")\n#   - Special keys: enter, escape, tab, space, backspace, delete\n#   - Function keys: f1, f2, ... f12\n#   - Navigation: up, down, left, right, home, end, pageup, pagedown\n#   - Characters: a-z, 0-9, and symbols like -, [, ], ', etc.\n#\n# Examples:\n#   \"a\"           - The 'a' key\n#   \"ctrl+c\"      - Ctrl+C\n#   \"alt+enter\"   - Alt+Enter\n#   \"super+v\"     - Cmd+V (macOS) / Super+V (Linux)\n\n# ==============================================================================\n#                              COMMAND PREFIX\n# ==============================================================================\n# The prefix key enters \"command mode\" where the next key triggers an action.\n# This is similar to tmux's prefix (Ctrl+B) or screen's (Ctrl+A).\n#\n# Default: Option+C (Alt+C on Linux)\n# After pressing the prefix, press another key to execute a command.\n\n[prefix]\nkey = \"alt+c\"\n\n# ==============================================================================\n#                             PANE MANAGEMENT\n# ==============================================================================\n# These keys work AFTER pressing the prefix key.\n# Panes let you split your terminal into multiple views.\n\n[keybindings.pane]\n# Split the current pane into two\nsplit_horizontal = \"-\"          # New pane below current\nsplit_vertical = \"p\"            # New pane to the right\n\n# Close the focused pane\nclose = \"w\"\n\n# Navigate between panes (vim-style)\nnavigate_up = \"k\"\nnavigate_down = \"j\"\nnavigate_left = \"h\"\nnavigate_right = \"l\"\n\n# Navigate between panes (arrow keys)\nnavigate_up_arrow = \"up\"\nnavigate_down_arrow = \"down\"\nnavigate_left_arrow = \"left\"\nnavigate_right_arrow = \"right\"\n\n# ==============================================================================\n#                            WINDOW MANAGEMENT\n# ==============================================================================\n# These keys work AFTER pressing the prefix key.\n# Windows are like browser tabs - each has its own pane layout.\n\n[keybindings.window]\n# Create and close windows\nnew = \"n\"                       # Create a new window\nclose = \"x\"                     # Close the current window\n\n# Navigate between windows\nnext = \"]\"                      # Switch to next window\nprevious = \"'\"                  # Switch to previous window\nprevious_alt = \"[\"              # Alternative key for previous\n\n# Jump directly to a window by number\nselect_1 = \"1\"                  # Switch to window 1\nselect_2 = \"2\"                  # Switch to window 2\nselect_3 = \"3\"                  # Switch to window 3\nselect_4 = \"4\"                  # Switch to window 4\nselect_5 = \"5\"                  # Switch to window 5\nselect_6 = \"6\"                  # Switch to window 6\nselect_7 = \"7\"                  # Switch to window 7\nselect_8 = \"8\"                  # Switch to window 8\nselect_9 = \"9\"                  # Switch to window 9\nselect_10 = \"0\"                 # Switch to window 10 (0 = 10)\n\n# ==============================================================================\n#                               APPLICATION\n# ==============================================================================\n# These keys work AFTER pressing the prefix key.\n\n[keybindings.app]\nquit = \"q\"                      # Exit Clux entirely\nsend_prefix = \"c\"               # Send the prefix key to the terminal\n                                # (useful if an app needs Alt+C)\n\n# ==============================================================================\n#                            DIRECT KEYBINDINGS\n# ==============================================================================\n# These keys work WITHOUT pressing the prefix first.\n# Use with caution to avoid conflicts with terminal applications.\n\n[keybindings.direct]\n# Scrollback navigation\nscroll_up = \"shift+pageup\"      # Scroll up through history\nscroll_down = \"shift+pagedown\"  # Scroll down through history\n\n# Clipboard operations\npaste = \"super+v\"               # Paste from clipboard (Cmd+V on macOS)\npaste_alt = \"ctrl+shift+v\"      # Alternative paste binding\n";

} // verus!
