//! The adapter between a display driver and the bus.

use vstd::prelude::*;
use crate::format::Payload;
use crate::frame::{COMMAND_PREFIX, MAX_CMD_CHUNK};
use crate::transfer::{Kind, Transfer, TransferView};

verus! {

/// I2C communication interface: the bus, the display's address on it, and
/// the control byte that marks a transaction as data.
pub struct I2CInterface<I2C> {
    i2c: I2C,
    addr: u8,
    data_byte: u8,
}

/// An [`I2CInterface`] as contracts see it.
pub struct I2CInterfaceView<I2C> {
    /// The bus.
    pub i2c: I2C,
    /// The display's address on the bus.
    pub addr: u8,
    /// The control byte that opens every data transaction.
    pub data_byte: u8,
}

impl<I2C> View for I2CInterface<I2C> {
    type V = I2CInterfaceView<I2C>;

    closed spec fn view(&self) -> I2CInterfaceView<I2C> {
        I2CInterfaceView { i2c: self.i2c, addr: self.addr, data_byte: self.data_byte }
    }
}

impl<I2C> I2CInterface<I2C> {
    /// Create new I2C interface for communication with a display driver.
    /// Nothing is written to the bus.
    pub fn new(i2c: I2C, addr: u8, data_byte: u8) -> (interface: Self)
        ensures
            interface@ == (I2CInterfaceView { i2c, addr, data_byte }),
    {
        Self { i2c, addr, data_byte }
    }

    /// Consume the display interface and return the underlying peripheral
    /// driver. Nothing is written to the bus.
    pub fn release(self) -> (i2c: I2C)
        ensures
            i2c == self@.i2c,
    {
        self.i2c
    }

    /// The display's address on the bus.
    pub fn address(&self) -> (addr: u8)
        ensures
            addr == self@.addr,
    {
        self.addr
    }

    /// The control byte that opens every data transaction.
    pub fn data_byte(&self) -> (data_byte: u8)
        ensures
            data_byte == self@.data_byte,
    {
        self.data_byte
    }

    /// The bus, for the writes that a transfer asks for. Address and
    /// control byte stay as they are.
    pub fn i2c_mut(&mut self) -> (i2c: &mut I2C)
        ensures
            *i2c == old(self)@.i2c,
            final(self)@ == (I2CInterfaceView { i2c: *final(i2c), ..old(self)@ }),
    {
        &mut self.i2c
    }

    /// Starts sending `cmds` to the display as commands.
    ///
    /// Commands are framed only where all bytes are at hand: they go out in
    /// one frame behind the control byte `0x00`, an empty run too. Any
    /// other shape is refused before anything is asked of the bus.
    pub fn send_commands<'a>(&self, cmds: Payload<'a>) -> (transfer: Transfer<'a>)
        requires
            cmds matches Payload::Bytes(bytes) ==> bytes@.len() <= MAX_CMD_CHUNK,
        ensures
            transfer@.wf(),
            transfer@ == match cmds {
                Payload::Bytes(bytes) => TransferView::commands(self@.addr, bytes@),
                _ => TransferView::rejected(self@.addr, Kind::Commands, COMMAND_PREFIX),
            },
    {
        match cmds {
            Payload::Bytes(bytes) => Transfer::commands(self.addr, bytes),
            _ => Transfer::rejected(self.addr, Kind::Commands, COMMAND_PREFIX),
        }
    }

    /// Starts sending `buf` to the display as data.
    ///
    /// Bytes at hand are cut into chunks of sixteen, the last one shorter
    /// where the length asks for it, and an empty payload is done at once
    /// with no write. Bytes that come one at a time are gathered into the
    /// same chunks. Each chunk goes out in a frame of its own behind the
    /// data control byte. Any other shape is refused before anything is
    /// asked of the bus.
    pub fn send_data<'a>(&self, buf: Payload<'a>) -> (transfer: Transfer<'a>)
        ensures
            transfer@.wf(),
            transfer@ == match buf {
                Payload::Bytes(bytes) => TransferView::buffer(
                    self@.addr,
                    self@.data_byte,
                    bytes@,
                ),
                Payload::ByteStream => TransferView::stream(self@.addr, self@.data_byte),
                Payload::Other => TransferView::rejected(self@.addr, Kind::Data, self@.data_byte),
            },
    {
        match buf {
            Payload::Bytes(bytes) => Transfer::buffer(self.addr, self.data_byte, bytes),
            Payload::ByteStream => Transfer::stream(self.addr, self.data_byte),
            Payload::Other => Transfer::rejected(self.addr, Kind::Data, self.data_byte),
        }
    }
}

} // verus!
