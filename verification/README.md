# en-2fa-monitor

Owner-side monitor for the Era 2FA signer network. It reads the chain alone and tells the owner, on
Slack or Telegram, when a signer lacks funds, is not registered or is silent while there is work,
when batches are no longer executed, and when too few signers are left to reach the threshold. An
alert fires once when its condition starts to hold, is repeated on a cooldown while it holds, and is
announced as resolved when it is over.

- `src/` is the verified library. `monitor` is the machine that decides what to read, what to say
  and when; `cycle`, `history` and `rounds` prove what its cycles amount to.
- `app/` is the program around it: arguments, chain access, HTTP posts, the clock.
- `tests/` runs the library on concrete networks.
