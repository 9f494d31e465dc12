# analyzerl_boxcars

A Rocket League replay analyzer whose decision logic is written in Verus and
proved against its contracts.

- `src/` is the verified library. Each module states its behaviour over
  mathematical models (`Seq`, `Map`, `Set`, spec functions) and proves it:
  command-line parsing (`cli`, `inspect`), header reading (`header`), the actor
  bookkeeping of the network stream (`roster`, `components`), ball-hit
  classification and filtering (`ball_events`, `hit_filter`), kickoffs and
  stints and game time (`stints`, `clock`), boost pickups (`boost`), rotations (`rotation`), zone,
  pressure, whiff and bump events (`zones`, `cooldown`), flip resets
  (`flip_resets`), presence and demolitions (`presence`), official stat
  credits (`official`), goal rows (`goal_rows`), row passes and ordering
  (`post`, `events`, `row_order`, `stats`), player columns (`player_values`)
  and the export column layout (`columns`).
- `replay_parse` parses a replay's bytes with `boxcars` (the one call the
  library trusts there, named by its result) into plain values, turns the
  network frames' attribute updates into actor updates by object name and
  kind, and hands them, with the header's players and playlist, to the
  context walk.
- Three modules put the pieces together: `replay_context` walks the
  attribute updates of the network stream (as plain values) into the
  replay's context; `pipeline` builds the play-by-play rows from the
  context's events and official credits, runs the post-processing passes
  in order, keeps the rows the stints of play keep and numbers them; and
  `stats_rows` counts each player's events into the stats rows.
- Public `proof fn law_*` items state properties that hold across calls or
  over every input, such as that a stable sort has one outcome or that a
  player's joins and leaves alternate.
- `tests/` exercises the library on concrete values.
- `app/` is the command-line program: it reads replay files, handles
  output formats, and writes the raw exports (the replay JSON and the
  network CSV files) from boxcars' own values.
  Measurements over car and ball positions (floating point) are not part
  of the library, and the play-by-play and stats exports, which need
  them, are not produced by the program yet.
