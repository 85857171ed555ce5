# lead-lag

Cointegration scanner and paper trader for USDT perpetual futures.

The library under `src/` holds everything that decides something, with contracts that Verus proves:

| Module | What it decides |
|--------|-----------------|
| `stats` | means, regressions, Hurst exponents, cointegration tests, the entry guard |
| `scanner` | which pairs are correlated and cointegrated |
| `trading` | what is tracked, when positions open and close, what they cost and make |
| `alerts`, `notify` | which trades are announced, what alerts say, when they may be sent |
| `monitor`, `display` | what one round of the loop does and how it is shown |
| `exchange`, `ws` | requests to the exchange, what its answers and its stream mean |
| `candle_cache`, `symbols`, `prices` | what is remembered of prices |
| `config` | settings, their defaults and what overrides them |
| `num`, `arith`, `decimal`, `text`, `json`, `clock`, `rank` | the ground the others stand on |

Real numbers are carried as their IEEE 754 bit patterns (`num::Num`), which are ordered, negated and
made absolute exactly. Adding, multiplying, roots and logarithms are asked of a `Calculator`, decimal
texts of a `DecimalReader` and a `DecimalWriter`, which the caller supplies. The contracts say which
operations are asked for, on what and in which order.

`app/` is the program around the library: the command line, files, HTTP, the stream of candles and
what is printed.
