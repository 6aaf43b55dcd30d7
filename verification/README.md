# AN758x-Stock2UBI

Install U-Boot recovery from the stock system without opening the device. The
program serves a page on which partitions are backed up and the boot images are
uploaded; the device reboots into recovery when flashing finishes.

    an758x-stock2ubi [--listen 0.0.0.0:3333] [--ignore-kernel-version]

Startup checks for kernel release `5.4.55`; `--ignore-kernel-version` skips that
check. The kernel module `an758x_mtd_rw.ko`, which clears the write protection,
is read from the program's own directory.

## Layout

`src/` is a library verified with Verus. Every function states what it returns,
and the modules whose names end in `_laws` state what holds of several together.

| Module | What it holds |
| --- | --- |
| `text`, `number`, `bytes` | characters, lines and fields; numbers in text; numbers in bytes |
| `fip`, `fip_laws` | boot packages, and the first eraseblock |
| `ubi`, `ubi_laws` | the bootstrap UBI image |
| `mtd`, `mtd_laws` | the partition table, devices, the boot device |
| `search` | the earliest run of good eraseblocks |
| `transfer` | reads, writes, and eraseblock writes with readback |
| `install`, `install_laws` | what is written where, in which order |
| `unlock` | the kernel module's parameters |
| `display`, `page`, `backup` | sizes, the page, downloads |
| `upload`, `reply`, `cli` | the upload form, replies, the command line |

`app/` is the program around it: the HTTP server, the device files and the
system calls. `tests/` runs the library on concrete values.

Where the outside world decides (a device that moves fewer bytes than asked, an
eraseblock that is bad), the library says what to ask next and takes the answer:
`search::RunSearch`, `transfer::EraseblockWrite` and `install::Installation`.
