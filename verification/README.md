# rustrade

The verified core of a multi-agent trading bot, written in Verus.

- `src/` is the library. Its functions are verified against their
  `requires`/`ensures`, except the small wrappers marked
  `#[verifier::external_body]` around `rust_decimal`, `chrono`, `uuid` and a few
  `std` functions, whose contracts are assumed; amounts are `decimal::Dec`, a
  value type that mirrors `rust_decimal::Decimal` and calls it for arithmetic,
  formatting and parsing.
  The modules follow the agents and services of the bot: candle aggregation
  (`candle_aggregator`, `timeframe_aggregator`), signal filtering and sizing
  (`signal_generator`, `signal_processor`, `trade_filter`, `trade_evaluator`,
  `candle_pipeline`, and `analyst` for the decision made on each candle), news
  reactions (`news_handler`, `listener`), order
  execution bookkeeping (`executor`, `portfolio_state_manager`), costs
  (`cost_evaluator`), monitoring (`health`, `heartbeat`, `sentinel`,
  `scanner`), dashboard logic (`user_agent`, `metrics`) and statistics
  (`win_rate`, `benchmarking`).
- `tests/` exercises the library on concrete values.
- `app/` holds what stays outside verification: floating-point analytics,
  shared asynchronous state and I/O glue around the library.
