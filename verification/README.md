# alaquint_comps

Components of a small actor-based robot controller, written in Verus.

- `src/actor_system.rs`: the registry of actor mailboxes (one sender per actor
  type) and of the tasks that run the actors, the actor error type, and the
  decision taken after each awaited task.
- `src/motor.rs`: the motor actor as a state machine (a name it can be asked for
  or given, a fixed speed it reports) and the lidar reader's errand to it.
- `src/pid.rs`: the PID controller's command codes, the packets sent to it and
  the decoding of its answers.
- `app/`: the runtime around the library: tokio tasks and channels, the serial
  port and the UDP socket, and the program itself.
