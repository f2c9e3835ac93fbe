use vstd::prelude::*;

verus! {

/// How a remote device is connected.
#[derive(PartialEq, Eq, Structural, PartialOrd, Ord, Debug, Clone, Copy, Hash)]
pub enum InterfaceType {
    Unknown,
    USB,
    WiFi,
}


/// What a device notification reports.
#[derive(PartialEq, Eq, Structural, Debug, Clone, Copy, Hash)]
pub enum Action {
    Attached,
    Detached,
    Paired,
}

/// Why preparing or using a device failed; each carries the status code of the
/// failing call.
#[derive(PartialEq, Eq, Structural, Debug, Clone, Copy)]
pub enum DeviceError {
    /// couldn't connect
    Connect(i32),
    /// pairing failed
    Pair(i32),
    /// pairing validation failed
    Validate(i32),
    /// session failed
    Session(i32),
    /// couldn't start service
    Service(i32),
}

/// A call on the device that a step asks the caller to make; none of them
/// reports a result that matters.
#[derive(PartialEq, Eq, Structural, Debug, Clone, Copy)]
pub enum DeviceCall {
    StopSession,
    Disconnect,
    Release,
}

/// The calls of the preparation protocol, each answered by a status code.
#[derive(PartialEq, Eq, Structural, Debug, Clone, Copy)]
pub enum PrepareStage {
    /// Connect; 0 is success.
    Connect,
    /// Ask whether the device is paired; 1 means paired.
    CheckPaired,
    /// Pair; 0 is success.
    Pair,
    /// Validate the pairing; 0 is success.
    ValidatePairing,
    /// Start a session; 0 is success.
    StartSession,
}

/// What to do after a step of the preparation.
#[derive(Debug)]
pub enum PrepareNext {
    /// Make this call and report its status.
    Call(PrepareStage),
    /// The preparation ended with this result; make these calls to tear down.
    Done(Result<(), DeviceError>, Vec<DeviceCall>),
}

/// The calls that undo a session and a connection, in that order.
pub open spec fn teardown_calls(session_active: bool, connected: bool) -> Seq<DeviceCall> {
    (if session_active { seq![DeviceCall::StopSession] } else { Seq::empty() })
        + (if connected { seq![DeviceCall::Disconnect] } else { Seq::empty() })
}

/// Once torn down, a device has nothing left to undo: a second disconnect
/// makes no call, and a device that was never prepared and does not own its
/// reference (a notification's copy) releases nothing.
pub proof fn lemma_teardown_happens_once()
    ensures
        teardown_calls(false, false) == Seq::<DeviceCall>::empty(),
{
    assert(teardown_calls(false, false) =~= Seq::<DeviceCall>::empty());
}

/// A device reached over USB or Wi-Fi. `device` is the handle of the
/// underlying device reference; the flags record what has to be undone.
pub struct Device {
    pub device: usize,
    pub udid: String,
    pub interface_type: InterfaceType,
    /// True after a successful preparation: only then is there a session to stop.
    session_active: bool,
    connected: bool,
    owns_reference: bool,
}

impl Device {
    pub closed spec fn handle(&self) -> usize {
        self.device
    }

    pub closed spec fn udid_view(&self) -> Seq<char> {
        self.udid@
    }

    pub closed spec fn interface(&self) -> InterfaceType {
        self.interface_type
    }

    pub closed spec fn connected(&self) -> bool {
        self.connected
    }

    pub closed spec fn session_active(&self) -> bool {
        self.session_active
    }

    pub closed spec fn owns_reference(&self) -> bool {
        self.owns_reference
    }

    /// A device as a notification reports it, before any connection: `udid` is
    /// its identifier when one could be read (empty otherwise).
    pub fn new(device: usize, udid: Option<String>, interface_type: InterfaceType, owns_reference: bool) -> (r: Self)
        ensures
            r.handle() == device,
            r.udid_view() == match udid {
                Some(u) => u@,
                None => Seq::<char>::empty(),
            },
            r.interface() == interface_type,
            !r.connected(),
            !r.session_active(),
            r.owns_reference() == owns_reference,
    {
        let udid = match udid {
            Some(u) => u,
            None => String::new(),
        };
        Device { device, udid, interface_type, session_active: false, connected: false, owns_reference }
    }

    /// Whether the device is connected.
    pub fn is_connected(&self) -> (r: bool)
        ensures
            r == self.connected(),
    {
        self.connected
    }

    /// Whether a session was started on the device.
    pub fn is_session_active(&self) -> (r: bool)
        ensures
            r == self.session_active(),
    {
        self.session_active
    }

    /// Records the interface the device now reports and returns it.
    pub fn interface_type(&mut self, reported: InterfaceType) -> (r: InterfaceType)
        ensures
            r == reported,
            final(self).interface() == reported,
            final(self).handle() == old(self).handle(),
            final(self).udid_view() == old(self).udid_view(),
            final(self).connected() == old(self).connected(),
            final(self).session_active() == old(self).session_active(),
            final(self).owns_reference() == old(self).owns_reference(),
    {
        self.interface_type = reported;
        reported
    }

    /// The outcome of connecting, given the call's status: 0 marks the device
    /// connected, any other status is a connection error and changes nothing.
    pub fn connect(&mut self, status: i32) -> (r: Result<(), DeviceError>)
        ensures
            status == 0 ==> r == Ok::<(), DeviceError>(()) && final(self).connected(),
            status != 0 ==> r == Err::<(), DeviceError>(DeviceError::Connect(status)) && final(self).connected() == old(self).connected(),
            final(self).session_active() == old(self).session_active(),
            final(self).owns_reference() == old(self).owns_reference(),
            final(self).handle() == old(self).handle(),
            final(self).udid_view() == old(self).udid_view(),
            final(self).interface() == old(self).interface(),
    {
        if status == 0 {
            self.connected = true;
            Ok(())
        } else {
            Err(DeviceError::Connect(status))
        }
    }

    /// Tears down what is open: stops the session if one is active, then
    /// disconnects if connected. Returns the calls to make, in order.
    pub fn disconnect(&mut self) -> (r: Vec<DeviceCall>)
        ensures
            r@ == teardown_calls(old(self).session_active(), old(self).connected()),
            !final(self).connected(),
            !final(self).session_active(),
            final(self).owns_reference() == old(self).owns_reference(),
            final(self).handle() == old(self).handle(),
            final(self).udid_view() == old(self).udid_view(),
            final(self).interface() == old(self).interface(),
    {
        let mut calls: Vec<DeviceCall> = Vec::new();
        if self.session_active {
            calls.push(DeviceCall::StopSession);
            self.session_active = false;
        }
        if self.connected {
            calls.push(DeviceCall::Disconnect);
            self.connected = false;
        }
        assert(calls@ =~= teardown_calls(old(self).session_active(), old(self).connected()));
        calls
    }

    fn fail(&mut self, error: DeviceError) -> (r: PrepareNext)
        ensures
            r matches PrepareNext::Done(res, calls) && res == Err::<(), DeviceError>(error)
                && calls@ == teardown_calls(old(self).session_active(), old(self).connected()),
            !final(self).connected(),
            !final(self).session_active(),
            final(self).owns_reference() == old(self).owns_reference(),
            final(self).handle() == old(self).handle(),
            final(self).udid_view() == old(self).udid_view(),
            final(self).interface() == old(self).interface(),
    {
        let calls = self.disconnect();
        PrepareNext::Done(Err(error), calls)
    }

    /// One step of preparing the device, given the status returned by the call
    /// of `stage`: connect; pair unless already paired; validate the pairing;
    /// start a session. A failed connection ends the preparation with nothing to
    /// undo; any later failure disconnects (stopping a session first). Success
    /// leaves the device connected with an active session.
    pub fn prepare_device(&mut self, stage: PrepareStage, status: i32) -> (r: PrepareNext)
        requires
            stage != PrepareStage::Connect ==> old(self).connected(),
        ensures
            final(self).handle() == old(self).handle(),
            final(self).udid_view() == old(self).udid_view(),
            final(self).interface() == old(self).interface(),
            final(self).owns_reference() == old(self).owns_reference(),
            stage == PrepareStage::Connect ==> if status == 0 {
                &&& r == PrepareNext::Call(PrepareStage::CheckPaired)
                &&& final(self).connected()
                &&& final(self).session_active() == old(self).session_active()
            } else {
                &&& r matches PrepareNext::Done(res, calls) && res == Err::<(), DeviceError>(DeviceError::Connect(status)) && calls@.len() == 0
                &&& final(self).connected() == old(self).connected()
                &&& final(self).session_active() == old(self).session_active()
            },
            stage == PrepareStage::CheckPaired ==> {
                &&& r == PrepareNext::Call(if status == 1 { PrepareStage::ValidatePairing } else { PrepareStage::Pair })
                &&& final(self).connected() == old(self).connected()
                &&& final(self).session_active() == old(self).session_active()
            },
            stage == PrepareStage::Pair || stage == PrepareStage::ValidatePairing || stage == PrepareStage::StartSession ==> if status == 0 {
                &&& r == PrepareNext::Call(PrepareStage::ValidatePairing) <==> stage == PrepareStage::Pair
                &&& r == PrepareNext::Call(PrepareStage::StartSession) <==> stage == PrepareStage::ValidatePairing
                &&& stage == PrepareStage::StartSession ==> (r matches PrepareNext::Done(res, calls) && res == Ok::<(), DeviceError>(()) && calls@.len() == 0)
                &&& final(self).connected() == old(self).connected()
                &&& final(self).session_active() == (old(self).session_active() || stage == PrepareStage::StartSession)
            } else {
                &&& r matches PrepareNext::Done(res, calls)
                    && res == Err::<(), DeviceError>(match stage {
                        PrepareStage::Pair => DeviceError::Pair(status),
                        PrepareStage::ValidatePairing => DeviceError::Validate(status),
                        _ => DeviceError::Session(status),
                    })
                    && calls@ == teardown_calls(old(self).session_active(), old(self).connected())
                &&& !final(self).connected()
                &&& !final(self).session_active()
            },
            (r matches PrepareNext::Done(res, _) && res is Ok) ==> final(self).connected() && final(self).session_active(),
            (r matches PrepareNext::Done(res, _) && res is Err && stage != PrepareStage::Connect) ==> !final(self).connected() && !final(self).session_active(),
            r is Call ==> final(self).connected(),
    {
        match stage {
            PrepareStage::Connect => match self.connect(status) {
                Ok(()) => PrepareNext::Call(PrepareStage::CheckPaired),
                Err(e) => PrepareNext::Done(Err(e), Vec::new()),
            },
            PrepareStage::CheckPaired => {
                if status == 1 {
                    PrepareNext::Call(PrepareStage::ValidatePairing)
                } else {
                    PrepareNext::Call(PrepareStage::Pair)
                }
            },
            PrepareStage::Pair => {
                if status == 0 {
                    PrepareNext::Call(PrepareStage::ValidatePairing)
                } else {
                    self.fail(DeviceError::Pair(status))
                }
            },
            PrepareStage::ValidatePairing => {
                if status == 0 {
                    PrepareNext::Call(PrepareStage::StartSession)
                } else {
                    self.fail(DeviceError::Validate(status))
                }
            },
            PrepareStage::StartSession => {
                if status == 0 {
                    self.session_active = true;
                    PrepareNext::Done(Ok(()), Vec::new())
                } else {
                    self.fail(DeviceError::Session(status))
                }
            },
        }
    }

    /// The outcome of starting a service on the device, given the call's status
    /// and the connection handle it produced (0 for none).
    pub fn start_service(&self, status: i32, connection: usize) -> (r: Result<ServiceConnection, DeviceError>)
        ensures
            r == ServiceConnection::spec_start(status, connection),
    {
        ServiceConnection::start(status, connection)
    }

    /// What dropping the device undoes: the teardown of `disconnect`, then the
    /// release of the reference if this value owns it.
    pub fn release(&mut self) -> (r: Vec<DeviceCall>)
        ensures
            r@ == teardown_calls(old(self).session_active(), old(self).connected())
                + if old(self).owns_reference() { seq![DeviceCall::Release] } else { Seq::empty() },
            !final(self).connected(),
            !final(self).session_active(),
            !final(self).owns_reference(),
    {
        let mut calls = self.disconnect();
        if self.owns_reference {
            calls.push(DeviceCall::Release);
            self.owns_reference = false;
        }
        calls
    }
}

/// An open service connection, by handle.
#[derive(PartialEq, Eq, Structural, Debug)]
pub struct ServiceConnection(pub usize);

impl ServiceConnection {
    /// A non-zero status is a service error carrying that status; a zero status
    /// without a connection is a service error with -1; otherwise the connection.
    pub open spec fn spec_start(status: i32, connection: usize) -> Result<ServiceConnection, DeviceError> {
        if status != 0 {
            Err(DeviceError::Service(status))
        } else if connection == 0 {
            Err(DeviceError::Service(-1i32))
        } else {
            Ok(ServiceConnection(connection))
        }
    }

    /// The outcome of starting a service, given the call's status and the
    /// connection handle it produced (0 for none).
    pub fn start(status: i32, connection: usize) -> (r: Result<Self, DeviceError>)
        ensures
            r == Self::spec_start(status, connection),
    {
        if status != 0 {
            Err(DeviceError::Service(status))
        } else if connection == 0 {
            Err(DeviceError::Service(-1i32))
        } else {
            Ok(ServiceConnection(connection))
        }
    }

    /// The outcome of sending a message, given the call's status: 0 is success,
    /// anything else is returned as the error.
    pub fn send_status(status: i32) -> (r: Result<(), i32>)
        ensures
            status == 0 ==> r == Ok::<(), i32>(()),
            status != 0 ==> r == Err::<(), i32>(status),
    {
        if status == 0 { Ok(()) } else { Err(status) }
    }

    /// The outcome of receiving a message, given the call's status and the
    /// message handle (0 for none): the message on success, -1 when the call
    /// succeeded without one, the status otherwise.
    pub fn receive_status(status: i32, response: usize) -> (r: Result<usize, i32>)
        ensures
            status == 0 && response != 0 ==> r == Ok::<usize, i32>(response),
            status == 0 && response == 0 ==> r == Err::<usize, i32>(-1i32),
            status != 0 ==> r == Err::<usize, i32>(status),
    {
        if status != 0 {
            Err(status)
        } else if response == 0 {
            Err(-1)
        } else {
            Ok(response)
        }
    }
}

/// A device notification: the device and what happened to it.
pub struct DeviceMessage {
    pub device: Device,
    pub action: Action,
}

} // verus!
