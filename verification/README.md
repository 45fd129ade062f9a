# meme_icrc

Downloads the transactions of an ICRC token ledger, and of the archives it refers to, and turns
them into entries with consecutive block numbers.

`src/` is the logic, verified with Verus. It makes no calls to other canisters itself: each
function that needs one returns a step that names the call, and takes the reply in its next step.

- `numbers`: natural numbers of any size.
- `accounts`: accounts and their text, `principal.subaccount`.
- `types`, `calls`, `runtime`, `views`: the data and its mathematical counterparts.
- `process`: transactions into stored entries.
- `archive`, `chunk`, `manager`, `download`: from one archived range up to a whole download.
- `setup`: choosing the target ledger, once.
- `premint`: adding a mint by hand.

`app/` is the canister around it: state, calls, and the loops that make the calls.
