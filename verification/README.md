# rt_server

A real-time risk server: trades and market updates arrive on a message
broker; a chain of processors (new, middle, current) reprices the book on
successive markets and publishes portfolios per pricing metric (PV, PV01,
PnL); post-processors turn published results into NAV and VaR figures.

The library in `src/` holds the logic, verified with Verus:

- `portfolio`, `pm_portfolio`, `pricing_results`: portfolios per trade and
  per metric, their merging, ordering and summaries. Values are generic; the
  arithmetic on them is passed in, and the contracts say what is done with it.
- `strmap`, `trade_set`, `trade`, `ao_trade`: string-keyed maps and sets, the
  trade registry, aggregated positions, and the AO position messages.
- `all_markets`: the markets in use and which market each processor prices on.
- `processor_new`, `processor_middle`, `processor_curr`, `processor_bulk`,
  `processor_msg`: each processor's state and decisions, one function per
  message, and the message counts.
- `processor_setup`: the log-level request of the diagnostics service.
- `nav`, `var`: routing of risk messages and the books of the post-processors.
- `controller_actor`: pruning of offsetting positions.
- `bergomi_calib`: the random bit generator and quote hash of the VIX
  calibration.
- `laws`: properties that relate several operations.

`app/` is the program around it: broker connections, the processor tasks and
their channels, the LETF market and trade pricing (floating point), the
diagnostics HTTP service and the NAV/VaR loops.
