# blockdev

Decisions behind installing an operating system onto a Linux block device, written in Rust and
proved with Verus: which partitions a disk has and which of them are in use, what to mount, where a
partition lies on its disk, how partitions are carried from one GUID partition table to another,
and what sector size a disk image was formatted for.

`src/` is the verified library. It computes and decides; it runs no command and opens no file.
Where the system has to be asked in between, a function returns what is needed next (`BusyStep`,
`SysfsStep`, `RereadStep`, `RefreshStep`, `SetUpStep`, `UnmountStep`) and another goes on with the answer.

| module | what it is about |
| --- | --- |
| `disk`, `partition`, `mount` | disks, partitions and mounted devices |
| `lsblk` | reading the output of `lsblk --pairs` |
| `busy` | what keeps a disk from being used exclusively |
| `gpt`, `table`, `space` | slots and free sectors of a GUID partition table |
| `parttable`, `udev`, `retry` | device nodes, waiting for udev, trying again |
| `sysfs`, `sector` | offsets of partitions, sizes of devices and sectors |
| `command`, `error`, `number`, `path`, `text` | what the others are made of |

What is taken on trust stands behind `#[verifier::external_body]` and `assume_specification`: calls
into `gptman`, `nix` and `regex`, and one into the standard library, each with a comment that says
what is claimed of it.

`app/` does the work on the running system: it runs the commands, reads the files and makes the
system calls that the library asks for. `tests/` runs the library on concrete values.
