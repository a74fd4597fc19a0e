//! The USB operations the firmware loader needs: vendor control transfers
//! to and from the device, and a record of the transfers handed to it.
use vstd::prelude::*;

verus! {

/// A failed USB transfer, with a description for the user.
#[derive(Debug)]
pub struct UsbError {
    pub message: String,
}

/// Vendor control transfers to the device (recipient: device).
pub trait UsbInterface {
    /// Control OUT (host to device).
    fn control_write(
        &self,
        request: u8,
        value: u16,
        index: u16,
        data: &[u8],
        timeout: std::time::Duration,
    ) -> Result<(), UsbError>;

    /// Control IN (device to host); returns the bytes the device sent.
    fn control_read(
        &self,
        request: u8,
        value: u16,
        index: u16,
        length: u16,
        timeout: std::time::Duration,
    ) -> Result<Vec<u8>, UsbError>;
}

/// A vendor control transfer as it is handed to the device.
pub enum Transfer {
    /// Control OUT with these setup fields and data.
    Write { request: u8, value: u16, index: u16, data: Seq<u8> },
    /// Control IN with these setup fields, asking for `length` bytes.
    Read { request: u8, value: u16, index: u16, length: u16 },
}

/// What the device answered to a transfer.
pub enum Reply {
    /// The transfer failed.
    Failed,
    /// A control OUT transfer succeeded.
    Written,
    /// A control IN transfer succeeded with these bytes.
    ReadBack(Seq<u8>),
}

/// A device together with the record of every transfer handed to it
/// through this value and what the device answered, in order. The record
/// has no run-time form.
pub struct LoggedUsb<U: UsbInterface> {
    device: U,
    log: Ghost<Seq<(Transfer, Reply)>>,
}

impl<U: UsbInterface> LoggedUsb<U> {
    /// The transfers handed to the device so far.
    pub closed spec fn transfers(&self) -> Seq<Transfer> {
        self.log@.map_values(|e: (Transfer, Reply)| e.0)
    }

    /// The device's answers to those transfers, one for each.
    pub closed spec fn replies(&self) -> Seq<Reply> {
        self.log@.map_values(|e: (Transfer, Reply)| e.1)
    }

    /// The device the transfers go to.
    pub closed spec fn spec_device(&self) -> U {
        self.device
    }

    /// There is one answer for each transfer.
    pub proof fn lemma_one_reply_each(&self)
        ensures
            self.replies().len() == self.transfers().len(),
    {
    }

    /// Starts an empty record for `device`.
    pub fn new(device: U) -> (r: LoggedUsb<U>)
        ensures
            r.transfers() == Seq::<Transfer>::empty(),
            r.replies() == Seq::<Reply>::empty(),
            r.spec_device() == device,
    {
        let r = LoggedUsb { device, log: Ghost(Seq::empty()) };
        assert(r.transfers() =~= Seq::<Transfer>::empty());
        assert(r.replies() =~= Seq::<Reply>::empty());
        r
    }

    /// The device the transfers go to.
    pub fn device(&self) -> (d: &U)
        ensures
            *d == self.spec_device(),
    {
        &self.device
    }

    /// Hands a control OUT transfer to the device and records it with the
    /// answer.
    pub fn control_write(
        &mut self,
        request: u8,
        value: u16,
        index: u16,
        data: &[u8],
        timeout: std::time::Duration,
    ) -> (r: Result<(), UsbError>)
        ensures
            final(self).transfers() == old(self).transfers().push(Transfer::Write { request, value, index, data: data@ }),
            final(self).replies() == old(self).replies().push(if r is Ok { Reply::Written } else { Reply::Failed }),
            final(self).spec_device() == old(self).spec_device(),
    {
        let r = self.device.control_write(request, value, index, data, timeout);
        let ghost reply = if r is Ok { Reply::Written } else { Reply::Failed };
        let ghost old_log = self.log@;
        self.log = Ghost(self.log@.push((Transfer::Write { request, value, index, data: data@ }, reply)));
        assert(self.transfers() =~= old_log.map_values(|e: (Transfer, Reply)| e.0).push(
            Transfer::Write { request, value, index, data: data@ },
        ));
        assert(self.replies() =~= old_log.map_values(|e: (Transfer, Reply)| e.1).push(reply));
        r
    }

    /// Hands a control IN transfer to the device and records it with the
    /// answer; returns the bytes the device sent.
    pub fn control_read(
        &mut self,
        request: u8,
        value: u16,
        index: u16,
        length: u16,
        timeout: std::time::Duration,
    ) -> (r: Result<Vec<u8>, UsbError>)
        ensures
            final(self).transfers() == old(self).transfers().push(Transfer::Read { request, value, index, length }),
            final(self).replies() == old(self).replies().push(
                match r {
                    Ok(v) => Reply::ReadBack(v@),
                    Err(_) => Reply::Failed,
                },
            ),
            final(self).spec_device() == old(self).spec_device(),
    {
        let r = self.device.control_read(request, value, index, length, timeout);
        let ghost reply = match &r {
            Ok(v) => Reply::ReadBack(v@),
            Err(_) => Reply::Failed,
        };
        let ghost old_log = self.log@;
        self.log = Ghost(self.log@.push((Transfer::Read { request, value, index, length }, reply)));
        assert(self.transfers() =~= old_log.map_values(|e: (Transfer, Reply)| e.0).push(
            Transfer::Read { request, value, index, length },
        ));
        assert(self.replies() =~= old_log.map_values(|e: (Transfer, Reply)| e.1).push(reply));
        r
    }
}

} // verus!
