# sweepx_platform

The platform layer of a read-only disk scanner, as a verified library.

A scan asks the operating system for one thing at a time: open this directory, give me the next
name, read this page. What is asked next, and what an answer means, is decided by `src/`: plain
functions on plain values, each with a contract that Verus proves. `app/` makes the system calls
and hands the answers back. `tests/` runs the library on concrete values.

| Part of `src/` | What it decides |
| --- | --- |
| `bytes`, `sequence`, `text`, `display` | integers in buffers, small vector operations, text |
| `unix_path`, `windows_path`, `native_path` | components, joining, equality and order of paths |
| `identity`, `model` | object identities, evidence values, fingerprints |
| `platform`, `cancellation`, `enumeration` | scan roots, directory entries, bounded batches |
| `privilege`, `windows_privilege` | privilege decisions and the elevated relaunch |
| `unix_metadata`, `linux_scanner`, `macos_scanner` | root admission and child inspection |
| `bulk_directory`, `regular_file` | paged enumeration and bounded reads on macOS |
| `windows_scanner`, `live_identity` | Windows root admission and live identities |
| `ntfs_acceleration`, `ntfs_probe` | NTFS layout and journal pages, the capability probe |
| `path_reconstruction`, `accelerated_source` | paths and subtrees from NTFS records |
| `accelerated_verification`, `change_tracking` | checking records, and detecting changes |

A path carries the encoding of the platform it comes from, bytes on Unix and UTF-16 units on
Windows, and is treated by that platform's rules on every host.
