# tapoctl

Control of Tapo smart plugs on the local network: a verified library, and a small command line
around it.

The library (`src/`) holds what can be computed without touching the network or the disk:

- `text`, `numeral`: trimming, splitting, numbers and their texts
- `ipv4`, `ipv6`, `address`: IP addresses, read from text and written as text
- `subnet`, `targets`: netmasks and broadcast addresses, the targets of a discovery scan
- `model`, `devices`, `registry`: plug models and the registry of named devices
- `naming`, `discovery`, `candidates`: what a scan finds, the names it gets, and adding it
- `controller`, `snapshot`, `history`: the account, the state of a plug, its use over time
- `report`, `location`, `error`: what is printed, where the configuration is kept, what can go wrong

Every function states in its contract what it returns or changes, and Verus proves it, except of
what lies outside the library and is taken on trust: the two wrappers `controller::api_client`
(`tapo::ApiClient::new` and `with_timeout`) and `naming::lowercase_mapping` (`char::to_lowercase`),
and the contracts given in `text` to `str::trim`, `str::to_ascii_lowercase` and `String::push`.
Facts that relate several functions are the public proof functions whose names start with `law_`.

The operations on the network that other services can use are in `app/lib.rs`. The command line
(`app/main.rs`) reads arguments, talks to plugs through the `tapo` crate, keeps the
password in the OS keyring and the configuration in a TOML file.
