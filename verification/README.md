# signal-message-scheduler

An interactive command-line scheduler for the Signal messenger: pick a contact
or group that `signal-cli` lists, confirm, choose a date, a time and a text,
watch the countdown, and the message is sent through `signal-cli` when it is
due.

The library in `src/` is verified with Verus:

- `text` — character-level operations (find, split, trim, lines, words,
  integer parsing and printing) specified over `Seq<char>`;
- `util` — reading the `listContacts` and `listGroups -d` listings, the text
  between two labels, and how durations are shown;
- `contact` — contacts, groups and message expiration, and how they are shown;
- `style` — runs of text with a colour and attributes;
- `schedule` — dates, times of day and the countdown;
- `signal` — the `signal-cli` command lines and what their outcomes mean;
- `dialogue` — the conversation that schedules one message, as a state
  machine from stage and event to next stage and action.

`app/main.rs` is the program around it: prompts (`inquire`), terminal colours
(`colored`), the spinner, the clock's time zone (`chrono`), running
`signal-cli`, and the countdown's sleeping.
