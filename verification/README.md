# ccb_labs

A set of small programs whose decision logic is a Verus-verified library:

- `queue_sim`: the chair-occupancy state machine of a hairdresser simulation.
- `word_sorter`: the distinct words of a text, cleaned and sorted, and the
  replies of the word-sorting websocket; `word_laws` proves what the word
  list keeps under joining, re-sorting and ASCII case changes.
- `city_game`: the rules of the city-name game (turn verdicts, player order).
- `staff_directory`: the name-to-job-title directory behind the TCP and UDP
  servers.
- `message_board`: the pages of the message board.
- `todo_api`: the todo list and what each HTTP request does to it.
- `text`: the character-level helpers they share (splitting at white space,
  trimming, lexicographic order, lowercasing).

`src/` is the verified library. `app/` holds the programs around it: sockets,
HTTP routing, JSON, terminal input and the random set-up of the simulation.
Run one with its name as the first argument, e.g. `todo_api` or `city_game`.
