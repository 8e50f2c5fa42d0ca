# CO2 sensor

The decisions of a Zigbee CO2 sensor's firmware as a verified library, and the
firmware around it. The device is an ESP32-H2 with a Senseair S8 CO2 sensor, a
WS2812 LED and a flash partition for an offline history.

| Module        | What it decides                                              |
|---------------|--------------------------------------------------------------|
| `s8`          | the Modbus exchange with the sensor                          |
| `led`         | colours, dimming and the LED's wire format                   |
| `zigbee`      | endpoints, signals, settings and published attributes        |
| `monitor`     | the main loop                                                |
| `logger`      | opening the history, appending to it, the boot counter       |
| `record`      | the stored form of one reading                               |
| `flash`       | requests to a flash partition and how a partition serves them|
| `ring`        | what the history keeps: its invariant, and one append        |
| `restart`     | what a start finds on the partition                          |
| `session`     | what a whole session leaves on it                            |
| `version`     | the firmware version                                         |

The library calls no driver. Where work alternates between a driver and a
decision, the library is a state machine that names its next request; `app/`
carries the request out and hands back the reply.

The history is a ring of 8-byte records behind a header sector. `ring` proves
that an append only ever writes erased flash, and that the history is a queue
which drops the 512 oldest records when it enters a sector of the lap before.

`restart` proves that a start resumes where the log had stopped: at the first
erased slot or, if there is none, at the oldest sector. Which one that is, only
the boot counts and times of the records tell. They do if the first records of
the sectors are in time order and the newest sector can be compared with the
oldest; otherwise the log goes on at the first sector. A boot counter that
starts again from a lower count exactly at a sector boundary looks like a ring
that has turned there.

`session` proves that a logger which wakes up every minute keeps the records in
order, as long as the boot count grows, and that a restart makes no difference
to which records are kept. It also says slot by slot what a session leaves on a
partition that held no log.
