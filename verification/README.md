# ifcfg_devname

Finds the name that an ifcfg configuration file gives to a network interface,
by the interface's hardware (MAC) address, and prints it.

- `src/` is the verified library:
  - `text.rs`: characters, Unicode white space, and lines as a buffered reader hands them out;
  - `mac.rs`: hardware addresses, their text forms, and the `mac_address` crate's parser and formatter;
  - `parser.rs`: the `HWADDR=` and `DEVICE=` lines of an ifcfg file, the search of one file and of several;
  - `scanner.rs`: the glob pattern of a configuration directory and the paths its search found;
  - `lib.rs`: test mode, the kernel-name check (through the `regex` crate), and the choice of the address to look for.
- `app/` is the program: command line, environment, logging, the interface lookup, the directory search and file reads.
- `tests/` runs the library.
