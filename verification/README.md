# solworker

The coordination core of a host-driven CPU runtime: three dedicated worker
classes, owned jobs with dependencies and retained groups, declared-cost
admission, provider-supplied results, thread-bound owners with bounded deferred
delivery, and coalescing host notification.

`src/` is the verified library. Each type is a plain state machine whose view
and transitions are stated as specification functions; executable methods are
proved to take exactly these transitions. Waiting, threads, closures and
destructors stay outside: a transition hands out what is to be run, and the next
one takes the report of how it ended.

| Area | Modules |
| --- | --- |
| configuration and startup | `config`, `builder`, `startup`, `platform`, `messages` |
| capacity | `cost`, `reservation`, `supply`, `credits` |
| owned work | `admission`, `queue`, `jobs`, `steps`, `scheduler`, `group`, `guarantees` |
| the runtime | `lifecycle`, `runtime`, `progress`, `context` |
| what callers use | `lane`, `scope`, `task`, `dependency`, `producer`, `access`, `external` |
| owners | `owner`, `delivery`, `channel` |
| notification | `notification` |
| support | `activation`, `storage`, `buffers`, `diagnostics`, `slots`, `sums` |

Public proof functions state what holds across operations, for instance
`guarantees::claims_are_final`, `credits::credits_come_back`,
`owner::callbacks_run_in_their_phase` and `notification::no_wake_is_lost`.

Terminal notifications travel to an owner thread through a bounded
`crossbeam-channel` queue. What is taken on trust about it is stated in
`channel`.

`app/` is the concurrent shell: locks, std threads, closures, unwinding and the
error traits of std around the library. `tests/` runs the library on concrete
values.
