# tmk_vmm

A virtual machine monitor for test microkernels (TMKs), and the pipeline that tests it in a realm of
the Arm confidential compute architecture.

`src/` is the library, verified with Verus:

- `image` lists the tests of a microkernel; `load` and `device_tree` place a microkernel or a Linux
  image in guest memory and describe the guest to it.
- `io`, `serial`, `gic` and `command` take the accesses of the guest: its console, its interrupt
  controller and its commands.
- `cca_ram` searches for the private memory of a realm.
- `run` sets up a guest, selects its tests and judges them.
- `pipeline`, `cca_job` and `uefi_igvm` plan the builds and jobs around the tests.
- `guest_tests` holds the tests that every microkernel has.

`tests/` runs the library. `app/` is what surrounds it: files, threads, processors, the command line
and the build system.

Where the library alternates with the outside (guest memory, allocations, the interrupt controller)
it does so in steps: a function returns what is to be done, and another one takes what came of it.
The byte order of the host, and the rules that its paths follow, are handed in as values; paths are
UTF-8.
