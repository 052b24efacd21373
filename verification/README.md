# pkgradar

PkgRadar's CI client: it asks the PkgRadar API whether the package versions of a build should be
blocked, and fails the build where one is.

`src/` is a library whose functions are verified by Verus against the contracts they carry. `app/`
is the `pkgradar` program around it: command line, files, git and HTTP.

| Module              | What it holds                                                              |
|---------------------|----------------------------------------------------------------------------|
| `text`, `lists`     | text as sequences of characters; filters, sets and parts of lists          |
| `json`, `yaml`, `toml_file` | documents as plain trees, read and written by the outside crates   |
| `entry`             | package coordinates and their order                                        |
| `lockfile`          | the lockfile formats, what a registry can know, and the canonical list     |
| `baseline`          | what a lockfile adds to a baseline                                         |
| `waiver`            | name patterns, version ranges, and the parts of a target                   |
| `config`            | the configuration of a repository                                          |
| `client`            | requests to the API, and what its answers mean                             |
| `cmd`               | the commands: settings, plans, runs, and what they print                   |

Proof functions whose names begin with `law_` state what holds of the library as a whole.

## Exit codes

| Code | Meaning                                                        |
|------|----------------------------------------------------------------|
| `0`  | Every spec passed, or the API was down and the run fails open. |
| `1`  | At least one spec was blocked.                                 |
| `2`  | An error of usage or configuration, such as a rejected token.  |
| `3`  | A failure of the network or of the API.                        |
