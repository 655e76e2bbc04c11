# idlectl

idlectl decides when a Linux machine may turn its screen off, suspend, hibernate or power off, from
what is happening on it. Every block whose condition holds proposes a deadline for an action, the
longest one wins, and `never` beats everything. Whatever cannot be told holds every sleep back.

The library under `src/` holds the whole of that, with its behaviour stated in contracts and proved
by Verus:

- the policy: `time`, `action`, `fact`, `clock`, `block`, `policy`, `decision`, and in `laws` what
  holds of every decision;
- the configuration: `config`, from the text of the files to the policy;
- the daemon: `engine` with `agents`, `leases`, `pending` and `resume`, the detectors `sessions`,
  `steam`, `gpu`, `counters` and `process`, which `detect` and `reading` bring together, and what it
  says in `manager`, `report` and `doctor`;
- the agent of a session: `session`.

`app/` is the program around it: the bus, the display servers, the files and the clock on the wall.
What it reads it hands to the library as plain values, and what the library decides it carries out.
