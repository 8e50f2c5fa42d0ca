//! Senseair S8 CO2 sensor: one Modbus RTU exchange over the UART.
//!
//! A read is a state machine. The request frame goes out, then up to seven
//! bytes come in, in pieces, until the response is complete or time is up.
use vstd::prelude::*;

verus! {

/// The UART that the sensor is wired to.
pub const S8_UART: u8 = 1;

/// Modbus RTU request: read input register 3 (CO2 ppm).
pub const S8_READ_CO2: [u8; 8] = [0xFE, 0x04, 0x00, 0x03, 0x00, 0x01, 0xD5, 0xC5];

/// Length of the sensor's response, in bytes.
pub const RESPONSE_LEN: usize = 7;

/// How long a response may take in all, in milliseconds.
pub const RESPONSE_TIMEOUT_MS: u64 = 1000;

/// How long one read of the UART may block, in milliseconds.
pub const RECEIVE_TIMEOUT_MS: u32 = 100;

/// A pin that the UART leaves unused.
pub const NO_PIN: i32 = -1;

/// A call of the UART driver.
#[derive(Clone, Copy, Debug, PartialEq, Eq, Structural)]
pub enum UartCall {
    /// Set the speed and the frame format.
    ParamConfig {
        port: u8,
        baud_rate: u32,
        data_bits: u8,
        parity: bool,
        stop_bits: u8,
        flow_control: bool,
    },
    /// Route the signals to pins.
    SetPin { port: u8, tx: i32, rx: i32, rts: i32, cts: i32 },
    /// Install the driver, with buffers of so many bytes.
    DriverInstall { port: u8, rx_buffer: u16, tx_buffer: u16, queue_size: u16 },
}

/// How far the setup of the UART has come.
#[derive(Clone, Copy, Debug, PartialEq, Eq, Structural)]
pub enum UartSetup {
    Configuring,
    Routing,
    Installing,
    Ready,
    /// A call failed with this code. None follows it.
    Failed(i32),
}

/// The sensor talks 9600 8N1; its receiver is on GPIO5, its transmitter on
/// GPIO4. The setup begins with the frame format.
pub fn s8_uart_init() -> (setup: UartSetup)
    ensures
        setup == UartSetup::Configuring,
{
    UartSetup::Configuring
}

impl UartSetup {
    /// The call that this setup waits for.
    pub open spec fn awaited(self) -> Option<UartCall> {
        match self {
            UartSetup::Configuring => Some(
                UartCall::ParamConfig {
                    port: S8_UART,
                    baud_rate: 9600,
                    data_bits: 8,
                    parity: false,
                    stop_bits: 1,
                    flow_control: false,
                },
            ),
            UartSetup::Routing => Some(
                UartCall::SetPin { port: S8_UART, tx: 5, rx: 4, rts: NO_PIN, cts: NO_PIN },
            ),
            UartSetup::Installing => Some(
                UartCall::DriverInstall {
                    port: S8_UART,
                    rx_buffer: 256,
                    tx_buffer: 0,
                    queue_size: 0,
                },
            ),
            UartSetup::Ready => None,
            UartSetup::Failed(_) => None,
        }
    }

    /// This setup once its call has returned `code` (0 is success).
    pub open spec fn after(self, code: i32) -> UartSetup {
        if self.awaited() is None {
            self
        } else if code != 0 {
            UartSetup::Failed(code)
        } else {
            match self {
                UartSetup::Configuring => UartSetup::Routing,
                UartSetup::Routing => UartSetup::Installing,
                _ => UartSetup::Ready,
            }
        }
    }

    /// The call to make next, if the setup is not over.
    pub fn call(&self) -> (call: Option<UartCall>)
        ensures
            call == self.awaited(),
            self is Configuring ==> call == Some(
                UartCall::ParamConfig {
                    port: 1,
                    baud_rate: 9600,
                    data_bits: 8,
                    parity: false,
                    stop_bits: 1,
                    flow_control: false,
                },
            ),
            self is Routing ==> call == Some(
                UartCall::SetPin { port: 1, tx: 5, rx: 4, rts: (-1) as i32, cts: (-1) as i32 },
            ),
            self is Installing ==> call == Some(
                UartCall::DriverInstall { port: 1, rx_buffer: 256, tx_buffer: 0, queue_size: 0 },
            ),
            self is Ready || self is Failed ==> call is None,
    {
        match self {
            UartSetup::Configuring => Some(
                UartCall::ParamConfig {
                    port: S8_UART,
                    baud_rate: 9600,
                    data_bits: 8,
                    parity: false,
                    stop_bits: 1,
                    flow_control: false,
                },
            ),
            UartSetup::Routing => Some(
                UartCall::SetPin { port: S8_UART, tx: 5, rx: 4, rts: NO_PIN, cts: NO_PIN },
            ),
            UartSetup::Installing => Some(
                UartCall::DriverInstall {
                    port: S8_UART,
                    rx_buffer: 256,
                    tx_buffer: 0,
                    queue_size: 0,
                },
            ),
            UartSetup::Ready => None,
            UartSetup::Failed(_) => None,
        }
    }

    /// Goes on with what the driver returned for [`UartSetup::call`].
    pub fn resume(&mut self, code: i32)
        ensures
            *final(self) == old(self).after(code),
            *old(self) is Ready || *old(self) is Failed ==> *final(self) == *old(self),
            !(*old(self) is Ready || *old(self) is Failed) ==> {
                &&& code != 0 ==> *final(self) == UartSetup::Failed(code)
                &&& code == 0 && *old(self) is Configuring ==> *final(self) is Routing
                &&& code == 0 && *old(self) is Routing ==> *final(self) is Installing
                &&& code == 0 && *old(self) is Installing ==> *final(self) is Ready
            },
    {
        *self = match *self {
            UartSetup::Ready => UartSetup::Ready,
            UartSetup::Failed(e) => UartSetup::Failed(e),
            _ if code != 0 => UartSetup::Failed(code),
            UartSetup::Configuring => UartSetup::Routing,
            UartSetup::Routing => UartSetup::Installing,
            UartSetup::Installing => UartSetup::Ready,
        };
    }
}

/// The setup makes its three calls in this order: frame format, pins, driver.
/// It succeeds if and only if all three do. The first failure is its result,
/// and no call follows it.
pub proof fn uart_setup_is_three_calls(config: i32, pins: i32, install: i32)
    ensures
        ({
            let first = UartSetup::Configuring;
            let second = first.after(config);
            let third = second.after(pins);
            let done = third.after(install);
            &&& first.awaited() == Some(
                UartCall::ParamConfig {
                    port: 1,
                    baud_rate: 9600,
                    data_bits: 8,
                    parity: false,
                    stop_bits: 1,
                    flow_control: false,
                },
            )
            &&& config != 0 ==> second == UartSetup::Failed(config) && done == second
            &&& config == 0 ==> second.awaited() == Some(
                UartCall::SetPin { port: 1, tx: 5, rx: 4, rts: (-1) as i32, cts: (-1) as i32 },
            )
            &&& config == 0 && pins != 0 ==> third == UartSetup::Failed(pins) && done == third
            &&& config == 0 && pins == 0 ==> third.awaited() == Some(
                UartCall::DriverInstall { port: 1, rx_buffer: 256, tx_buffer: 0, queue_size: 0 },
            )
            &&& config == 0 && pins == 0 && install != 0 ==> done == UartSetup::Failed(install)
            &&& done == UartSetup::Ready <==> config == 0 && pins == 0 && install == 0
            &&& done.awaited() is None
        }),
{
}

/// How many bytes a read of the UART brought, from the driver's return value.
/// A negative value is an error, and counts as no bytes.
pub fn s8_read(n: i32) -> (count: usize)
    ensures
        count == if n < 0 {
            0
        } else {
            n as int
        },
{
    if n < 0 {
        0
    } else {
        n as usize
    }
}

/// Why a read gave no CO2 value.
#[derive(Clone, Copy, Debug, PartialEq, Eq, Structural)]
pub enum ReadFailure {
    /// The UART did not take the whole request.
    WriteFailed,
    /// Time was up with only so many bytes of the response.
    Timeout { received: usize },
    /// The response does not answer the request.
    BadHeader,
}

/// What a read has to do next.
#[derive(Clone, Copy, Debug, PartialEq, Eq)]
pub enum ReadStep {
    /// Read at most `max` bytes, waiting for `timeout_ms` at most, and hand
    /// them to [`Co2Read::receive`].
    Receive { max: usize, timeout_ms: u32 },
    /// The exchange is over.
    Finished(Result<u16, ReadFailure>),
}

/// A response that is coming in.
#[derive(Debug)]
pub struct Co2Read {
    resp: Vec<u8>,
}

/// Whether a response starts as an answer to the request does: the same
/// address and function, and two bytes of data.
pub open spec fn header_ok(resp: Seq<u8>) -> bool {
    resp[0] == 0xFE && resp[1] == 0x04 && resp[2] == 0x02
}

/// The CO2 value in a response: two bytes, most significant first.
pub open spec fn response_ppm(resp: Seq<u8>) -> u16 {
    (resp[3] * 256 + resp[4]) as u16
}

/// What a complete response says.
pub open spec fn parsed(resp: Seq<u8>) -> Result<u16, ReadFailure> {
    if header_ok(resp) {
        Ok(response_ppm(resp))
    } else {
        Err(ReadFailure::BadHeader)
    }
}

/// The bytes of the response after `bytes` have come in: whatever goes beyond
/// the length of a response is left out.
pub open spec fn received(resp: Seq<u8>, bytes: Seq<u8>) -> Seq<u8> {
    let all = resp + bytes;
    if all.len() <= RESPONSE_LEN {
        all
    } else {
        all.take(RESPONSE_LEN as int)
    }
}

/// What is to be done with the bytes `resp` of a response, `elapsed_ms`
/// milliseconds after the request. A complete response is looked at whether
/// or not time is up.
pub open spec fn step_at(resp: Seq<u8>, elapsed_ms: u64) -> ReadStep {
    if resp.len() == RESPONSE_LEN {
        ReadStep::Finished(parsed(resp))
    } else if elapsed_ms > RESPONSE_TIMEOUT_MS {
        ReadStep::Finished(Err(ReadFailure::Timeout { received: resp.len() as usize }))
    } else {
        ReadStep::Receive {
            max: (RESPONSE_LEN - resp.len()) as usize,
            timeout_ms: RECEIVE_TIMEOUT_MS,
        }
    }
}

/// Whether time is up for a response.
pub fn response_expired(elapsed_ms: u64) -> (expired: bool)
    ensures
        expired == (elapsed_ms > RESPONSE_TIMEOUT_MS),
        expired <==> elapsed_ms > 1000,
{
    elapsed_ms > RESPONSE_TIMEOUT_MS
}

/// The CO2 value in a complete response, or why there is none.
pub fn parse_response(resp: &[u8]) -> (ppm: Result<u16, ReadFailure>)
    requires
        resp@.len() == RESPONSE_LEN,
    ensures
        ppm == parsed(resp@),
        resp@[0] == 0xFE && resp@[1] == 0x04 && resp@[2] == 0x02 ==> (ppm matches Ok(value) && value
            == 256 * resp@[3] + resp@[4]),
        !(resp@[0] == 0xFE && resp@[1] == 0x04 && resp@[2] == 0x02) ==> ppm == Err::<
            u16,
            ReadFailure,
        >(ReadFailure::BadHeader),
{
    if resp[0] != 0xFE || resp[1] != 0x04 || resp[2] != 0x02 {
        return Err(ReadFailure::BadHeader);
    }
    Ok(resp[3] as u16 * 256 + resp[4] as u16)
}

/// Starts to wait for the response, once the UART has taken `written` bytes
/// of the request.
pub fn read_co2(written: i32) -> (read: Result<Co2Read, ReadFailure>)
    ensures
        match read {
            Ok(r) => written == S8_READ_CO2@.len() && r@ == Seq::<u8>::empty(),
            Err(e) => written != S8_READ_CO2@.len() && e == ReadFailure::WriteFailed,
        },
        read matches Ok(r) ==> r.wf(),
        read is Ok <==> written == 8,
{
    if written != 8 {
        return Err(ReadFailure::WriteFailed);
    }
    Ok(Co2Read { resp: Vec::new() })
}

impl View for Co2Read {
    type V = Seq<u8>;

    closed spec fn view(&self) -> Seq<u8> {
        self.resp@
    }
}

impl Co2Read {
    /// What every read keeps: no more bytes than a response has.
    pub open spec fn wf(&self) -> bool {
        self@.len() <= RESPONSE_LEN
    }

    /// What is to be done next, so many milliseconds (a begun one counts)
    /// after the request went out.
    pub fn next(&self, elapsed_ms: u64) -> (step: ReadStep)
        requires
            self.wf(),
        ensures
            step == step_at(self@, elapsed_ms),
            self@.len() < 7 && elapsed_ms <= 1000 ==> step == (ReadStep::Receive {
                max: (7 - self@.len()) as usize,
                timeout_ms: 100,
            }),
            self@.len() < 7 && elapsed_ms > 1000 ==> step == ReadStep::Finished(
                Err(ReadFailure::Timeout { received: self@.len() as usize }),
            ),
            self@.len() == 7 ==> match step {
                ReadStep::Finished(Ok(ppm)) => {
                    &&& self@[0] == 0xFE && self@[1] == 0x04 && self@[2] == 0x02
                    &&& ppm == 256 * self@[3] + self@[4]
                },
                ReadStep::Finished(Err(e)) => {
                    &&& !(self@[0] == 0xFE && self@[1] == 0x04 && self@[2] == 0x02)
                    &&& e == ReadFailure::BadHeader
                },
                ReadStep::Receive { .. } => false,
            },
    {
        let got: usize = self.resp.len();
        if got == RESPONSE_LEN {
            return ReadStep::Finished(parse_response(self.resp.as_slice()));
        }
        if response_expired(elapsed_ms) {
            return ReadStep::Finished(Err(ReadFailure::Timeout { received: got }));
        }
        ReadStep::Receive { max: RESPONSE_LEN - got, timeout_ms: RECEIVE_TIMEOUT_MS }
    }

    /// Takes in bytes from the UART.
    pub fn receive(&mut self, bytes: &[u8])
        requires
            old(self).wf(),
        ensures
            final(self).wf(),
            final(self)@ == received(old(self)@, bytes@),
            final(self)@.len() == if old(self)@.len() + bytes@.len() < 7 {
                old(self)@.len() + bytes@.len()
            } else {
                7
            },
            forall|i: int|
                0 <= i < final(self)@.len() ==> #[trigger] final(self)@[i] == (old(self)@
                    + bytes@)[i],
    {
        let ghost before = self.resp@;
        let mut i: usize = 0;
        while i < bytes.len() && self.resp.len() < RESPONSE_LEN
            invariant
                before.len() <= RESPONSE_LEN,
                i <= bytes@.len(),
                self.resp@.len() <= RESPONSE_LEN,
                self.resp@ == before + bytes@.take(i as int),
            decreases bytes@.len() - i,
        {
            self.resp.push(bytes[i]);
            i += 1;
            assert(before + bytes@.take(i as int) =~= (before + bytes@.take(i - 1)).push(
                bytes@[i - 1],
            ));
        }
        assert(self.resp@ =~= received(before, bytes@));
    }
}

/// It does not matter in which pieces a response comes in.
pub proof fn pieces_do_not_matter(resp: Seq<u8>, first: Seq<u8>, second: Seq<u8>)
    requires
        resp.len() <= RESPONSE_LEN,
    ensures
        received(received(resp, first), second) == received(resp, first + second),
{
    assert(received(received(resp, first), second) =~= received(resp, first + second));
}

/// The response after these pieces have come in.
pub open spec fn response_of(pieces: Seq<Seq<u8>>) -> Seq<u8>
    decreases pieces.len(),
{
    if pieces.len() == 0 {
        Seq::empty()
    } else {
        received(response_of(pieces.drop_last()), pieces.last())
    }
}

/// How many bytes these pieces have in all.
pub open spec fn bytes_in(pieces: Seq<Seq<u8>>) -> nat
    decreases pieces.len(),
{
    if pieces.len() == 0 {
        0
    } else {
        bytes_in(pieces.drop_last()) + pieces.last().len()
    }
}

proof fn response_counts_bytes(pieces: Seq<Seq<u8>>)
    ensures
        response_of(pieces).len() == if bytes_in(pieces) < RESPONSE_LEN {
            bytes_in(pieces)
        } else {
            RESPONSE_LEN as nat
        },
    decreases pieces.len(),
{
    if pieces.len() > 0 {
        response_counts_bytes(pieces.drop_last());
    }
}

/// What has come in is the beginning of all the bytes that came, byte for
/// byte, up to seven of them.
pub proof fn response_is_the_first_seven_bytes(pieces: Seq<Seq<u8>>)
    ensures
        response_of(pieces).len() == if pieces.flatten().len() < 7 {
            pieces.flatten().len()
        } else {
            7
        },
        forall|i: int|
            0 <= i < response_of(pieces).len() ==> #[trigger] response_of(pieces)[i]
                == pieces.flatten()[i],
    decreases pieces.len(),
{
    if pieces.len() > 0 {
        let rest = pieces.drop_last();
        response_is_the_first_seven_bytes(rest);
        assert(pieces =~= rest.push(pieces.last()));
        rest.lemma_flatten_push(pieces.last());
        let all = rest.flatten() + pieces.last();
        assert(pieces.flatten() =~= all);
        let resp = response_of(rest);
        assert forall|i: int| 0 <= i < response_of(pieces).len() implies #[trigger] response_of(
            pieces,
        )[i] == all[i] by {
            if i < resp.len() {
                assert((resp + pieces.last())[i] == resp[i]);
            } else {
                assert(resp =~= rest.flatten());
            }
        }
    }
}

/// A response reads as its CO2 value however it is cut into pieces, whatever
/// its checksum is, whatever comes after it, and however long the last piece
/// took.
pub proof fn every_cutting_gives_the_value(
    pieces: Seq<Seq<u8>>,
    ppm: u16,
    crc_lo: u8,
    crc_hi: u8,
    elapsed_ms: u64,
)
    requires
        pieces.flatten().len() >= 7,
        pieces.flatten().take(7) == seq![
            0xFEu8,
            0x04,
            0x02,
            (ppm / 256) as u8,
            (ppm % 256) as u8,
            crc_lo,
            crc_hi,
        ],
    ensures
        step_at(response_of(pieces), elapsed_ms) == ReadStep::Finished(Ok(ppm)),
{
    response_is_the_first_seven_bytes(pieces);
    assert(response_of(pieces) =~= pieces.flatten().take(7));
}

/// Only what starts as an answer does gives a value, which is then the number
/// in its fourth and fifth byte; any other seven bytes are refused.
pub proof fn value_is_the_two_data_bytes(resp: Seq<u8>)
    requires
        resp.len() == 7,
    ensures
        match parsed(resp) {
            Ok(ppm) => {
                &&& resp[0] == 0xFE && resp[1] == 0x04 && resp[2] == 0x02
                &&& ppm == 256 * resp[3] + resp[4]
            },
            Err(e) => {
                &&& resp[0] != 0xFE || resp[1] != 0x04 || resp[2] != 0x02
                &&& e == ReadFailure::BadHeader
            },
        },
{
}

/// A read always ends. No piece is waited for after the first 1000 ms, and
/// each for at most 100 ms, so that the read is over within 1100 ms.
pub proof fn read_ends_in_time(resp: Seq<u8>, elapsed_ms: u64)
    ensures
        elapsed_ms > 1000 ==> step_at(resp, elapsed_ms) is Finished,
        step_at(resp, elapsed_ms) matches ReadStep::Receive { timeout_ms, .. } ==> elapsed_ms
            + timeout_ms <= 1100,
{
}

/// Fewer than seven bytes never give a value, in whatever pieces and however
/// late they come: the read waits for the rest until time is up, and fails.
pub proof fn partial_response_gives_no_value(pieces: Seq<Seq<u8>>, elapsed_ms: u64)
    requires
        bytes_in(pieces) < 7,
    ensures
        step_at(response_of(pieces), elapsed_ms) == if elapsed_ms > 1000 {
            ReadStep::Finished(
                Err(ReadFailure::Timeout { received: bytes_in(pieces) as usize }),
            )
        } else {
            ReadStep::Receive { max: (7 - bytes_in(pieces)) as usize, timeout_ms: 100 }
        },
{
    response_counts_bytes(pieces);
}

/// A response that carries a CO2 value reads as that value, whatever its
/// checksum bytes are.
pub proof fn every_value_reads_back(ppm: u16, crc_lo: u8, crc_hi: u8)
    ensures
        parsed(
            seq![0xFE, 0x04, 0x02, (ppm / 256) as u8, (ppm % 256) as u8, crc_lo, crc_hi],
        ) == Ok::<u16, ReadFailure>(ppm),
{
}

} // verus!
