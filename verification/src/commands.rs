use vstd::prelude::*;
use crate::protocol::command_frame;
use crate::serialtrait::{Sendable, Serial};
use crate::servo42::{
    active_on_code, baud_rate_code, dir_code, flag_code, mot_type_code, protection_code,
    work_mode_code, ActiveOn, BaudRate, Dir, MotType, MotorError, Protection, WorkMode,
};
use crate::standard::{
    answered, judge, lemma_ran_next, lemma_ran_nothing, lemma_step_ignored, ran, step, lemma_ran_concat, lemma_ran_failed_rest, lemma_stopped_at,
    lemma_stopped_at_prefix, lemma_stopped_at_suffix, stopped_at, Check,
    Servo42C,
};

verus! {

/// The signed shaft position, in 1/65536 of a turn, of an encoder reading
/// made of whole turns and the phase within the turn.
pub open spec fn encoder_position(reading: Result<(i32, u16), MotorError>) -> Result<i64, MotorError> {
    match reading {
        Ok((turns, phase)) => Ok((turns * 0x1_0000 + phase) as i64),
        Err(e) => Err(e),
    }
}

/// The status byte read as "the En pin enables the driver" (status 1).
pub open spec fn en_pin_enabled(reading: Result<u8, MotorError>) -> Result<bool, MotorError> {
    match reading {
        Ok(status) => Ok(status == 1),
        Err(e) => Err(e),
    }
}

/// The status byte read as a protection state (status 1 is "protected").
pub open spec fn protection_state(reading: Result<u8, MotorError>) -> Result<Protection, MotorError> {
    match reading {
        Ok(status) => Ok(
            if status == 1 {
                Protection::Protected
            } else {
                Protection::UnProtected
            },
        ),
        Err(e) => Err(e),
    }
}

/// The magnitude of a signed speed.
pub open spec fn speed_magnitude(speed: i8) -> int {
    if speed < 0 {
        -speed
    } else {
        speed as int
    }
}

/// The byte that carries a signed speed: the magnitude in the low 7 bits,
/// the top bit set for forward (non-negative) speeds.
pub open spec fn speed_code(speed: i8) -> u8 {
    if speed < 0 {
        (-speed) as u8
    } else {
        (speed + 0x80) as u8
    }
}

/// The speed exceeds the motor's limit of 2000 rpm in either direction,
/// where the speed in rpm is |`speed`| * 30000 / (`microstep` * 200).
pub open spec fn too_fast(speed: i8, microstep: u8) -> bool {
    speed_magnitude(speed) * 30000 > 2000 * (microstep * 200)
}

/// The commands with which a fresh driver stops the motor and sends its
/// default settings: the stop may answer any status, every setting must
/// be accepted.
pub open spec fn startup_cmds() -> Seq<(u8, Seq<u8>, Check)> {
    seq![
        (0xF7u8, Seq::<u8>::empty(), Check::AnyReply),
        (0xA1u8, 1616u16.encoding(), Check::Accepted),
        (0xA2u8, 288u16.encoding(), Check::Accepted),
        (0xA3u8, 1616u16.encoding(), Check::Accepted),
        (0xA4u8, 286u16.encoding(), Check::Accepted),
        (0x84u8, seq![16u8], Check::Accepted),
        (0xA5u8, 2000u16.encoding(), Check::Accepted),
    ]
}

/// Every setting that driver `t` records is among `cmds`, each as a
/// command whose reply must be accepted: the gains (0xA1, 0xA2, 0xA3), the
/// acceleration (0xA4) and the microstep (0x84).
pub open spec fn sends_settings_of<S: Serial>(cmds: Seq<(u8, Seq<u8>, Check)>, t: Servo42C<S>) -> bool {
    &&& cmds.contains((0xA1u8, t.kp.encoding(), Check::Accepted))
    &&& cmds.contains((0xA2u8, t.ki.encoding(), Check::Accepted))
    &&& cmds.contains((0xA3u8, t.kd.encoding(), Check::Accepted))
    &&& cmds.contains((0xA4u8, t.acc.encoding(), Check::Accepted))
    &&& cmds.contains((0x84u8, seq![t.microstep], Check::Accepted))
}

/// The first commands with which a driver prepares its motor for the
/// linear-acceleration controller: stop (any status will do), the gains,
/// acceleration 288 and torque 2000 (each must be accepted).
pub open spec fn gain_cmds(kp: u16, ki: u16, kd: u16) -> Seq<(u8, Seq<u8>, Check)> {
    seq![
        (0xF7u8, Seq::<u8>::empty(), Check::AnyReply),
        (0xA1u8, kp.encoding(), Check::Accepted),
        (0xA2u8, ki.encoding(), Check::Accepted),
        (0xA3u8, kd.encoding(), Check::Accepted),
        (0xA4u8, 288u16.encoding(), Check::Accepted),
        (0xA5u8, 2000u16.encoding(), Check::Accepted),
    ]
}

/// The remaining commands of that preparation: current 3, protection on,
/// release of the lock, return to zero, zero mode off, enable, protection
/// on. The answers to releasing the lock, returning to zero and enabling
/// are ignored; every other command must be accepted.
pub open spec fn protection_cmds() -> Seq<(u8, Seq<u8>, Check)> {
    seq![
        (0x83u8, seq![3u8], Check::Accepted),
        (0x88u8, seq![0u8], Check::Accepted),
        (0x3Du8, Seq::<u8>::empty(), Check::Ignored),
        (0x94u8, seq![0u8], Check::Ignored),
        (0x90u8, seq![0u8], Check::Accepted),
        (0xF3u8, seq![1u8], Check::Ignored),
        (0x88u8, seq![0u8], Check::Accepted),
    ]
}

/// All the commands with which a driver prepares its motor for the
/// linear-acceleration controller.
pub open spec fn linear_acc_cmds(kp: u16, ki: u16, kd: u16) -> Seq<(u8, Seq<u8>, Check)> {
    gain_cmds(kp, ki, kd) + protection_cmds()
}

impl<S: Serial> Servo42C<S> {
    /// Sends a command whose reply is a status byte, 1 for success.
    fn ack_cmd<Data: Sendable>(&mut self, code: u8, data: Data) -> (r: Result<(), MotorError>)
        requires
            Data::byte_size() + 3 <= usize::MAX,
        ensures
            step(old(self).address, old(self).s, final(self).s, code, data.encoding(), Check::Accepted, r),
            old(self).same_settings(*final(self)),
    {
        let reply: Result<u8, MotorError> = self.send_cmd(code, data);
        match reply {
            Ok(ret) => if ret == 1 {
                Ok(())
            } else {
                Err(MotorError::NegativeResponse)
            },
            Err(e) => Err(e),
        }
    }

    /// The microstep subdivision last set.
    pub fn get_microstep(&self) -> (m: u8)
        ensures
            m == self.microstep,
    {
        self.microstep
    }

    /// Reads the encoder (the motor should be calibrated): the whole turns
    /// and the phase within the turn, returned together as one position in
    /// 1/65536 of a turn.
    pub fn read_encoder_value(&mut self) -> (r: Result<i64, MotorError>)
        ensures
            exists|reply: Result<(i32, u16), MotorError>|
                #[trigger] answered::<S, (i32, u16)>(
                    old(self).address,
                    old(self).s,
                    final(self).s,
                    0x30,
                    Seq::empty(),
                    reply,
                ) && r == encoder_position(reply),
            old(self).same_settings(*final(self)),
    {
        let reply: Result<(i32, u16), MotorError> = self.send_cmd(0x30, ());
        match reply {
            Ok((rotations, phase)) => Ok(rotations as i64 * 0x1_0000 + phase as i64),
            Err(e) => Err(e),
        }
    }

    /// Reads the number of pulses received.
    pub fn read_recived_pulses(&mut self) -> (r: Result<i32, MotorError>)
        ensures
            answered::<S, i32>(old(self).address, old(self).s, final(self).s, 0x33, Seq::empty(), r),
            old(self).same_settings(*final(self)),
    {
        self.send_cmd(0x33, ())
    }

    /// Reads the error of the shaft angle: the angle commanded minus the
    /// angle reached, where 0..0xFFFF stands for 0..360 degrees.
    pub fn read_error(&mut self) -> (r: Result<i16, MotorError>)
        ensures
            answered::<S, i16>(old(self).address, old(self).s, final(self).s, 0x39, Seq::empty(), r),
            old(self).same_settings(*final(self)),
    {
        self.send_cmd(0x39, ())
    }

    /// Reads the status of the En pin: status 1 is enabled, 2 disabled.
    pub fn read_en_pin(&mut self) -> (r: Result<bool, MotorError>)
        ensures
            exists|reply: Result<u8, MotorError>|
                #[trigger] answered::<S, u8>(
                    old(self).address,
                    old(self).s,
                    final(self).s,
                    0x3A,
                    Seq::empty(),
                    reply,
                ) && r == en_pin_enabled(reply),
            old(self).same_settings(*final(self)),
    {
        let reply: Result<u8, MotorError> = self.send_cmd(0x3A, ());
        match reply {
            Ok(ret) => Ok(ret == 1),
            Err(e) => Err(e),
        }
    }

    /// Releases the locked-rotor protection of the shaft.
    pub fn release_lock(&mut self) -> (r: Result<(), MotorError>)
        ensures
            step(old(self).address, old(self).s, final(self).s, 0x3D, Seq::empty(), Check::Accepted, r),
            old(self).same_settings(*final(self)),
    {
        self.ack_cmd(0x3D, ())
    }

    /// Reads the protection state of the shaft: status 1 is protected.
    pub fn read_lock(&mut self) -> (r: Result<Protection, MotorError>)
        ensures
            exists|reply: Result<u8, MotorError>|
                #[trigger] answered::<S, u8>(
                    old(self).address,
                    old(self).s,
                    final(self).s,
                    0x3E,
                    Seq::empty(),
                    reply,
                ) && r == protection_state(reply),
            old(self).same_settings(*final(self)),
    {
        let reply: Result<u8, MotorError> = self.send_cmd(0x3E, ());
        match reply {
            Ok(t) => Ok(
                if t == 1 {
                    Protection::Protected
                } else {
                    Protection::UnProtected
                },
            ),
            Err(e) => Err(e),
        }
    }

    /// Calibrates the encoder ("Cal" on the screen). The motor must be unloaded.
    pub fn calibrate(&mut self) -> (r: Result<(), MotorError>)
        ensures
            step(old(self).address, old(self).s, final(self).s, 0x80, seq![0u8], Check::Accepted, r),
            old(self).same_settings(*final(self)),
    {
        self.ack_cmd(0x80, 0x00u8)
    }

    /// Sets the motor type ("MotType"): 0 for 0.9 degree, 1 for 1.8 degree.
    pub fn set_mot_type(&mut self, mot_type: MotType) -> (r: Result<(), MotorError>)
        ensures
            step(
                old(self).address,
                old(self).s,
                final(self).s,
                0x81,
                seq![mot_type_code(mot_type)],
                Check::Accepted,
                r,
            ),
            old(self).same_settings(*final(self)),
    {
        let to_send: u8 = match mot_type {
            MotType::Deg0_9 => 0,
            MotType::Deg1_8 => 1,
        };
        self.ack_cmd(0x81, to_send)
    }

    /// Sets the work mode ("Mode"): 0 CR_OPEN, 1 CR_vFOC, 2 CR_UART.
    pub fn set_mode(&mut self, work_mode: WorkMode) -> (r: Result<(), MotorError>)
        ensures
            step(
                old(self).address,
                old(self).s,
                final(self).s,
                0x82,
                seq![work_mode_code(work_mode)],
                Check::Accepted,
                r,
            ),
            old(self).same_settings(*final(self)),
    {
        let to_send: u8 = match work_mode {
            WorkMode::CrOpen => 0,
            WorkMode::CrVFoc => 1,
            WorkMode::CrUART => 2,
        };
        self.ack_cmd(0x82, to_send)
    }

    /// Sets the current ("Ma"): `t` times 200 mA.
    pub fn set_current(&mut self, t: u8) -> (r: Result<(), MotorError>)
        ensures
            step(old(self).address, old(self).s, final(self).s, 0x83, seq![t], Check::Accepted, r),
            old(self).same_settings(*final(self)),
    {
        self.ack_cmd(0x83, t)
    }

    /// Sets the microstep subdivision ("MStep", 1 to 256, default 16); the
    /// driver keeps the new value only when the motor accepts it.
    pub fn set_microstep(&mut self, mstep: u8) -> (r: Result<(), MotorError>)
        ensures
            step(old(self).address, old(self).s, final(self).s, 0x84, seq![mstep], Check::Accepted, r),
            final(self).microstep == (if r is Ok {
                mstep
            } else {
                old(self).microstep
            }),
            final(self).address == old(self).address,
            final(self).kp == old(self).kp,
            final(self).ki == old(self).ki,
            final(self).kd == old(self).kd,
            final(self).acc == old(self).acc,
    {
        self.ack_cmd(0x84, mstep)?;
        self.microstep = mstep;
        Ok(())
    }

    /// Sets the level on which the En pin is active ("En"): 0 low, 1 high, 2 always.
    pub fn set_en_active(&mut self, active_on: ActiveOn) -> (r: Result<(), MotorError>)
        ensures
            step(
                old(self).address,
                old(self).s,
                final(self).s,
                0x85,
                seq![active_on_code(active_on)],
                Check::Accepted,
                r,
            ),
            old(self).same_settings(*final(self)),
    {
        let to_send: u8 = match active_on {
            ActiveOn::Low => 0,
            ActiveOn::High => 1,
            ActiveOn::Hold => 2,
        };
        self.ack_cmd(0x85, to_send)
    }

    /// Sets the direction of rotation ("Dir"): 0 clockwise, 1 counterclockwise.
    pub fn set_direction(&mut self, dir: Dir) -> (r: Result<(), MotorError>)
        ensures
            step(
                old(self).address,
                old(self).s,
                final(self).s,
                0x86,
                seq![dir_code(dir)],
                Check::Accepted,
                r,
            ),
            old(self).same_settings(*final(self)),
    {
        let to_send: u8 = match dir {
            Dir::ClockWise => 0,
            Dir::CounterClockWise => 1,
        };
        self.ack_cmd(0x86, to_send)
    }

    /// Turns the automatic screen-off ("AutoSDD") on or off.
    pub fn set_autossd(&mut self, active: bool) -> (r: Result<(), MotorError>)
        ensures
            step(
                old(self).address,
                old(self).s,
                final(self).s,
                0x87,
                seq![flag_code(active)],
                Check::Accepted,
                r,
            ),
            old(self).same_settings(*final(self)),
    {
        let mut t: u8 = 0;
        if active {
            t += 1;
        }
        self.ack_cmd(0x87, t)
    }

    /// Sets the locked-rotor protection ("Protect"): 0 protected, 1 unprotected.
    pub fn set_lock(&mut self, protection: Protection) -> (r: Result<(), MotorError>)
        ensures
            step(
                old(self).address,
                old(self).s,
                final(self).s,
                0x88,
                seq![protection_code(protection)],
                Check::Accepted,
                r,
            ),
            old(self).same_settings(*final(self)),
    {
        let to_send: u8 = match protection {
            Protection::Protected => 0,
            Protection::UnProtected => 1,
        };
        self.ack_cmd(0x88, to_send)
    }

    /// Turns the subdivision interpolation ("Mplyer") on or off.
    pub fn set_subdivision_interpolation(&mut self, active: bool) -> (r: Result<(), MotorError>)
        ensures
            step(
                old(self).address,
                old(self).s,
                final(self).s,
                0x89,
                seq![flag_code(active)],
                Check::Accepted,
                r,
            ),
            old(self).same_settings(*final(self)),
    {
        let mut t: u8 = 0;
        if active {
            t += 1;
        }
        self.ack_cmd(0x89, t)
    }

    /// Sets the baud rate of the driver's UART ("UartBaud"): 0 for 9600
    /// up to 5 for 115200.
    pub fn set_baudrate(&mut self, baud_rate: BaudRate) -> (r: Result<(), MotorError>)
        ensures
            step(
                old(self).address,
                old(self).s,
                final(self).s,
                0x8A,
                seq![baud_rate_code(baud_rate)],
                Check::Accepted,
                r,
            ),
            old(self).same_settings(*final(self)),
    {
        let to_send: u8 = match baud_rate {
            BaudRate::B9600 => 0,
            BaudRate::B19200 => 1,
            BaudRate::B25000 => 2,
            BaudRate::B38400 => 3,
            BaudRate::B57600 => 4,
            BaudRate::B115200 => 5,
        };
        self.ack_cmd(0x8A, to_send)
    }

    /// Sets the slave address ("UartAddr") to 0xe0 + `addr`, `addr` from 0 to 9.
    /// This driver keeps sending to the address it had.
    pub fn set_slave_address(&mut self, addr: u8) -> (r: Result<(), MotorError>)
        ensures
            step(old(self).address, old(self).s, final(self).s, 0x8B, seq![addr], Check::Accepted, r),
            old(self).same_settings(*final(self)),
    {
        self.ack_cmd(0x8B, addr)
    }

    /// Restores the default parameters ("Restore"); the motor must then be
    /// rebooted and the link's baud rate set by hand.
    pub fn reset(&mut self) -> (r: Result<(), MotorError>)
        ensures
            step(old(self).address, old(self).s, final(self).s, 0x3F, Seq::empty(), Check::Accepted, r),
            old(self).same_settings(*final(self)),
    {
        self.ack_cmd(0x3F, ())
    }

    /// Sets the return-to-zero mode ("0_Mode"): 0 disabled, 1 DirMode, 2 NearMode.
    pub fn set_zero_mode(&mut self, mode: u8) -> (r: Result<(), MotorError>)
        ensures
            step(old(self).address, old(self).s, final(self).s, 0x90, seq![mode], Check::Accepted, r),
            old(self).same_settings(*final(self)),
    {
        self.ack_cmd(0x90, mode)
    }

    /// Sets the zero of the return-to-zero mode ("set 0").
    pub fn set_zero(&mut self) -> (r: Result<(), MotorError>)
        ensures
            step(old(self).address, old(self).s, final(self).s, 0x91, seq![0u8], Check::Accepted, r),
            old(self).same_settings(*final(self)),
    {
        self.ack_cmd(0x91, 0u8)
    }

    /// Sets the speed of the return to zero ("0_Speed", 0 to 4, smaller is faster).
    pub fn set_zero_speed(&mut self, speed: u8) -> (r: Result<(), MotorError>)
        ensures
            step(old(self).address, old(self).s, final(self).s, 0x92, seq![speed], Check::Accepted, r),
            old(self).same_settings(*final(self)),
    {
        self.ack_cmd(0x92, speed)
    }

    /// Sets the direction of the return to zero ("0_Dir"): 0 CW, 1 CCW.
    pub fn set_zero_dir(&mut self, dir: u8) -> (r: Result<(), MotorError>)
        ensures
            step(old(self).address, old(self).s, final(self).s, 0x93, seq![dir], Check::Accepted, r),
            old(self).same_settings(*final(self)),
    {
        self.ack_cmd(0x93, dir)
    }

    /// Returns to zero ("Goto 0").
    pub fn goto_zero(&mut self) -> (r: Result<(), MotorError>)
        ensures
            step(old(self).address, old(self).s, final(self).s, 0x94, seq![0u8], Check::Accepted, r),
            old(self).same_settings(*final(self)),
    {
        self.ack_cmd(0x94, 0u8)
    }

    /// Sets the position Kp parameter; the driver keeps `kp` whatever the answer.
    pub fn set_kp(&mut self, kp: u16) -> (r: Result<(), MotorError>)
        ensures
            step(old(self).address, old(self).s, final(self).s, 0xA1, kp.encoding(), Check::Accepted, r),
            final(self).kp == kp,
            final(self).address == old(self).address,
            final(self).microstep == old(self).microstep,
            final(self).ki == old(self).ki,
            final(self).kd == old(self).kd,
            final(self).acc == old(self).acc,
    {
        self.kp = kp;
        self.ack_cmd(0xA1, kp)
    }

    /// Sets the position Ki parameter; the driver keeps `ki` whatever the answer.
    pub fn set_ki(&mut self, ki: u16) -> (r: Result<(), MotorError>)
        ensures
            step(old(self).address, old(self).s, final(self).s, 0xA2, ki.encoding(), Check::Accepted, r),
            final(self).ki == ki,
            final(self).address == old(self).address,
            final(self).microstep == old(self).microstep,
            final(self).kp == old(self).kp,
            final(self).kd == old(self).kd,
            final(self).acc == old(self).acc,
    {
        self.ki = ki;
        self.ack_cmd(0xA2, self.ki)
    }

    /// Sets the position Kd parameter; the driver keeps `kd` whatever the answer.
    pub fn set_kd(&mut self, kd: u16) -> (r: Result<(), MotorError>)
        ensures
            step(old(self).address, old(self).s, final(self).s, 0xA3, kd.encoding(), Check::Accepted, r),
            final(self).kd == kd,
            final(self).address == old(self).address,
            final(self).microstep == old(self).microstep,
            final(self).kp == old(self).kp,
            final(self).ki == old(self).ki,
            final(self).acc == old(self).acc,
    {
        self.kd = kd;
        self.ack_cmd(0xA3, kd)
    }

    /// Sets the acceleration (ACC) parameter; the driver keeps `acc`
    /// whatever the answer.
    pub fn set_acc(&mut self, acc: u16) -> (r: Result<(), MotorError>)
        ensures
            step(old(self).address, old(self).s, final(self).s, 0xA4, acc.encoding(), Check::Accepted, r),
            final(self).acc == acc,
            final(self).address == old(self).address,
            final(self).microstep == old(self).microstep,
            final(self).kp == old(self).kp,
            final(self).ki == old(self).ki,
            final(self).kd == old(self).kd,
    {
        self.acc = acc;
        self.ack_cmd(0xA4, self.acc)
    }

    /// Sets the maximum torque (MaxT); 0x4B0 when none is given.
    pub fn set_maxt(&mut self, kp: Option<u16>) -> (r: Result<(), MotorError>)
        ensures
            step(
                old(self).address,
                old(self).s,
                final(self).s,
                0xA5,
                (match kp {
                    Some(t) => t,
                    None => 0x4B0u16,
                }).encoding(),
                Check::Accepted,
                r,
            ),
            old(self).same_settings(*final(self)),
    {
        let t: u16 = match kp {
            Some(t) => t,
            None => 0x4B0,
        };
        self.ack_cmd(0xA5, t)
    }

    /// Sets the En pin status in CR_UART mode.
    pub fn set_enable(&mut self, en: bool) -> (r: Result<(), MotorError>)
        ensures
            step(
                old(self).address,
                old(self).s,
                final(self).s,
                0xF3,
                seq![flag_code(en)],
                Check::Accepted,
                r,
            ),
            old(self).same_settings(*final(self)),
    {
        let mut b = 0u8;
        if en {
            b += 1;
        }
        self.ack_cmd(0xF3, b)
    }

    /// Stops the motor; returns the motor's status byte.
    pub fn stop(&mut self) -> (r: Result<u8, MotorError>)
        ensures
            answered::<S, u8>(old(self).address, old(self).s, final(self).s, 0xF7, Seq::empty(), r),
            old(self).same_settings(*final(self)),
    {
        self.send_cmd(0xF7, ())
    }

    /// Moves `dist` pulses at `speed` (direction in the top bit); returns the
    /// motor's status byte. The motor answers only once it has started, so
    /// the call blocks.
    pub fn goto(&mut self, speed: u8, dist: u32) -> (r: Result<u8, MotorError>)
        ensures
            answered::<S, u8>(
                old(self).address,
                old(self).s,
                final(self).s,
                0xFD,
                (speed, dist).encoding(),
                r,
            ),
            old(self).same_settings(*final(self)),
    {
        self.send_cmd(0xFD, (speed, dist))
    }

    /// Runs the motor at a constant speed: the magnitude of `speed` in the
    /// low 7 bits, the direction in the top bit. A speed over 2000 rpm in
    /// either direction is refused without sending anything. Returns the
    /// motor's status byte.
    pub fn set_speed(&mut self, speed: i8) -> (r: Result<u8, MotorError>)
        requires
            speed != i8::MIN || too_fast(speed, old(self).microstep),
        ensures
            too_fast(speed, old(self).microstep) ==> r == Err::<u8, MotorError>(
                MotorError::NegativeResponse,
            ) && *final(self) == *old(self),
            !too_fast(speed, old(self).microstep) ==> {
                &&& answered::<S, u8>(
                    old(self).address,
                    old(self).s,
                    final(self).s,
                    0xF6,
                    seq![speed_code(speed)],
                    r,
                )
                &&& old(self).same_settings(*final(self))
            },
    {
        let magnitude: i32 = if speed < 0 {
            -(speed as i32)
        } else {
            speed as i32
        };
        if magnitude * 30000 > 2000 * (self.microstep as i32 * 200) {
            return Err(MotorError::NegativeResponse);
        }
        let to_send = if speed < 0 {
            (-speed) as u8
        } else {
            let s = speed as u8;
            assert((s | 0x80) == s + 0x80) by (bit_vector)
                requires
                    s < 0x80,
            ;
            s | 0x80
        };
        self.send_cmd(0xF6, to_send)
    }
}

impl<S: Serial> Servo42C<S> {
    /// A driver on link `s` with the default settings, after stopping the
    /// motor and sending those settings to it: the commands of
    /// `startup_cmds` in order, stopping at the first whose reply is a
    /// failure. Succeeds exactly when none was.
    pub fn new(s: S) -> (r: Result<Servo42C<S>, MotorError>)
        ensures
            r matches Ok(t) ==> {
                &&& ran(0xe0, s, t.s, startup_cmds(), Ok(()))
                &&& t.address == 0xe0
                &&& t.kp == 1616
                &&& t.ki == 288
                &&& t.kd == 1616
                &&& t.acc == 286
                &&& t.microstep == 16
                &&& sends_settings_of(startup_cmds(), t)
            },
            r matches Err(e) ==> exists|post: S| #[trigger] ran(0xe0, s, post, startup_cmds(), Err(e)),
    {
        let ghost cmds = startup_cmds();
        let mut t = Servo42C::empty_new(s);
        proof {
            lemma_ran_nothing(0xe0, s);
            assert(cmds.take(0) =~= Seq::<(u8, Seq<u8>, Check)>::empty());
        }
        let ghost before = t.s;
        let r0 = t.stop();
        proof {
            assert(answered::<S, u8>(0xe0, before, t.s, 0xF7, Seq::empty(), r0));
            lemma_ran_next(0xe0, s, before, t.s, cmds, 0, judge(Check::AnyReply, r0));
        }
        if let Err(e) = r0 {
            return Err(e);
        }
        let ghost before = t.s;
        let r1 = t.set_kp(t.kp);
        proof {
            lemma_ran_next(0xe0, s, before, t.s, cmds, 1, r1);
        }
        if let Err(e) = r1 {
            return Err(e);
        }
        let ghost before = t.s;
        let r2 = t.set_ki(t.ki);
        proof {
            lemma_ran_next(0xe0, s, before, t.s, cmds, 2, r2);
        }
        if let Err(e) = r2 {
            return Err(e);
        }
        let ghost before = t.s;
        let r3 = t.set_kd(t.kd);
        proof {
            lemma_ran_next(0xe0, s, before, t.s, cmds, 3, r3);
        }
        if let Err(e) = r3 {
            return Err(e);
        }
        let ghost before = t.s;
        let r4 = t.set_acc(t.acc);
        proof {
            lemma_ran_next(0xe0, s, before, t.s, cmds, 4, r4);
        }
        if let Err(e) = r4 {
            return Err(e);
        }
        let ghost before = t.s;
        let r5 = t.set_microstep(t.microstep);
        proof {
            lemma_ran_next(0xe0, s, before, t.s, cmds, 5, r5);
        }
        if let Err(e) = r5 {
            return Err(e);
        }
        let ghost before = t.s;
        let r6 = t.set_maxt(Some(2000));
        proof {
            lemma_ran_next(0xe0, s, before, t.s, cmds, 6, r6);
        }
        if let Err(e) = r6 {
            return Err(e);
        }
        proof {
            assert(cmds.take(7) =~= cmds);
            lemma_startup_sends_default_settings(t);
        }
        Ok(t)
    }
}

impl<S: Serial> Servo42C<S> {
    /// The settings of `post`, after a run of `linear_acc_cmds` that
    /// stopped at command `k` (counting from 1): each gain, and the
    /// acceleration 288, has its new value once its command has been sent,
    /// and its old one before; the address and microstep are kept.
    pub open spec fn gains_sent_before(self, post: Self, k: int, kp: u16, ki: u16, kd: u16) -> bool {
        &&& post.address == self.address
        &&& post.microstep == self.microstep
        &&& post.kp == if k >= 2 { kp } else { self.kp }
        &&& post.ki == if k >= 3 { ki } else { self.ki }
        &&& post.kd == if k >= 4 { kd } else { self.kd }
        &&& post.acc == if k >= 5 { 288u16 } else { self.acc }
    }
}

impl<S: Serial> Servo42C<S> {
    /// Runs `gain_cmds`, stopping at the first failure.
    fn configure_gains(&mut self, kp: u16, ki: u16, kd: u16) -> (r: Result<(), MotorError>)
        ensures
            ran(old(self).address, old(self).s, final(self).s, gain_cmds(kp, ki, kd), r),
            exists|k: int|
                {
                    &&& #[trigger] stopped_at(
                        old(self).address,
                        old(self).s,
                        final(self).s,
                        gain_cmds(kp, ki, kd),
                        k,
                        r,
                    )
                    &&& old(self).gains_sent_before(*final(self), k, kp, ki, kd)
                },
            final(self).address == old(self).address,
            final(self).microstep == old(self).microstep,
    {
        let ghost cmds = gain_cmds(kp, ki, kd);
        let ghost a = self.address;
        let ghost s0 = self.s;
        proof {
            lemma_ran_nothing(a, s0);
            assert(cmds.take(0) =~= Seq::<(u8, Seq<u8>, Check)>::empty());
        }
        let ghost before = self.s;
        let r0 = self.stop();
        proof {
            assert(answered::<S, u8>(a, before, self.s, 0xF7, Seq::empty(), r0));
            lemma_ran_next(a, s0, before, self.s, cmds, 0, judge(Check::AnyReply, r0));
            if r0 is Err {
                lemma_stopped_at(a, s0, before, self.s, cmds, 0, judge(Check::AnyReply, r0));
            }
        }
        if let Err(e) = r0 {
            return Err(e);
        }
        let ghost before = self.s;
        let r1 = self.set_kp(kp);
        proof {
            lemma_ran_next(a, s0, before, self.s, cmds, 1, r1);
            if r1 is Err {
                lemma_stopped_at(a, s0, before, self.s, cmds, 1, r1);
            }
        }
        if let Err(e) = r1 {
            return Err(e);
        }
        let ghost before = self.s;
        let r2 = self.set_ki(ki);
        proof {
            lemma_ran_next(a, s0, before, self.s, cmds, 2, r2);
            if r2 is Err {
                lemma_stopped_at(a, s0, before, self.s, cmds, 2, r2);
            }
        }
        if let Err(e) = r2 {
            return Err(e);
        }
        let ghost before = self.s;
        let r3 = self.set_kd(kd);
        proof {
            lemma_ran_next(a, s0, before, self.s, cmds, 3, r3);
            if r3 is Err {
                lemma_stopped_at(a, s0, before, self.s, cmds, 3, r3);
            }
        }
        if let Err(e) = r3 {
            return Err(e);
        }
        let ghost before = self.s;
        let r4 = self.set_acc(288);
        proof {
            lemma_ran_next(a, s0, before, self.s, cmds, 4, r4);
            if r4 is Err {
                lemma_stopped_at(a, s0, before, self.s, cmds, 4, r4);
            }
        }
        if let Err(e) = r4 {
            return Err(e);
        }
        let ghost before = self.s;
        let r5 = self.set_maxt(Some(2000));
        proof {
            lemma_ran_next(a, s0, before, self.s, cmds, 5, r5);
            lemma_stopped_at(a, s0, before, self.s, cmds, 5, r5);
        }
        if let Err(e) = r5 {
            return Err(e);
        }
        proof {
            assert(cmds.take(6) =~= cmds);
        }
        Ok(())
    }

    /// Runs `protection_cmds`, stopping at the first failure.
    fn configure_protection(&mut self) -> (r: Result<(), MotorError>)
        ensures
            ran(old(self).address, old(self).s, final(self).s, protection_cmds(), r),
            exists|k: int| #[trigger] stopped_at(old(self).address, old(self).s, final(self).s, protection_cmds(), k, r),
            old(self).same_settings(*final(self)),
    {
        let ghost cmds = protection_cmds();
        let ghost a = self.address;
        let ghost s0 = self.s;
        proof {
            lemma_ran_nothing(a, s0);
            assert(cmds.take(0) =~= Seq::<(u8, Seq<u8>, Check)>::empty());
        }
        let ghost before = self.s;
        let r0 = self.set_current(3);
        proof {
            lemma_ran_next(a, s0, before, self.s, cmds, 0, r0);
            if r0 is Err {
                lemma_stopped_at(a, s0, before, self.s, cmds, 0, r0);
            }
        }
        if let Err(e) = r0 {
            return Err(e);
        }
        let ghost before = self.s;
        let r1 = self.set_lock(Protection::Protected);
        proof {
            lemma_ran_next(a, s0, before, self.s, cmds, 1, r1);
            if r1 is Err {
                lemma_stopped_at(a, s0, before, self.s, cmds, 1, r1);
            }
        }
        if let Err(e) = r1 {
            return Err(e);
        }
        let ghost before = self.s;
        let r2 = self.release_lock();
        proof {
            lemma_step_ignored(a, before, self.s, 0x3D, Seq::empty(), r2);
            lemma_ran_next(a, s0, before, self.s, cmds, 2, Ok(()));
        }
        let ghost before = self.s;
        let r3 = self.goto_zero();
        proof {
            lemma_step_ignored(a, before, self.s, 0x94, seq![0u8], r3);
            lemma_ran_next(a, s0, before, self.s, cmds, 3, Ok(()));
        }
        let ghost before = self.s;
        let r4 = self.set_zero_mode(0);
        proof {
            lemma_ran_next(a, s0, before, self.s, cmds, 4, r4);
            if r4 is Err {
                lemma_stopped_at(a, s0, before, self.s, cmds, 4, r4);
            }
        }
        if let Err(e) = r4 {
            return Err(e);
        }
        let ghost before = self.s;
        let r5 = self.set_enable(true);
        proof {
            lemma_step_ignored(a, before, self.s, 0xF3, seq![1u8], r5);
            lemma_ran_next(a, s0, before, self.s, cmds, 5, Ok(()));
        }
        let ghost before = self.s;
        let r6 = self.set_lock(Protection::Protected);
        proof {
            lemma_ran_next(a, s0, before, self.s, cmds, 6, r6);
            lemma_stopped_at(a, s0, before, self.s, cmds, 6, r6);
        }
        if let Err(e) = r6 {
            return Err(e);
        }
        proof {
            assert(cmds.take(7) =~= cmds);
        }
        Ok(())
    }

    /// Prepares the motor for the linear-acceleration controller with the
    /// given gains: the commands of `linear_acc_cmds` in order, stopping at
    /// the first whose reply is a failure, which is returned. The answers to
    /// releasing the lock, returning to zero and enabling are ignored. Each
    /// gain, and the acceleration 288, is kept by the driver once its
    /// command has been sent, whatever the answer.
    pub fn configure_linear_acc(&mut self, kp: u16, ki: u16, kd: u16) -> (r: Result<(), MotorError>)
        ensures
            ran(old(self).address, old(self).s, final(self).s, linear_acc_cmds(kp, ki, kd), r),
            exists|k: int|
                {
                    &&& #[trigger] stopped_at(
                        old(self).address,
                        old(self).s,
                        final(self).s,
                        linear_acc_cmds(kp, ki, kd),
                        k,
                        r,
                    )
                    &&& old(self).gains_sent_before(*final(self), k, kp, ki, kd)
                },
            final(self).address == old(self).address,
            final(self).microstep == old(self).microstep,
            r is Ok ==> {
                &&& final(self).kp == kp
                &&& final(self).ki == ki
                &&& final(self).kd == kd
                &&& final(self).acc == 288
            },
    {
        let ghost a = self.address;
        let ghost s0 = self.s;
        let ghost start = *self;
        let ghost first = gain_cmds(kp, ki, kd);
        let ghost second = protection_cmds();
        let r1 = self.configure_gains(kp, ki, kd);
        let ghost mid = self.s;
        let ghost gains_done = *self;
        let ghost k = choose|k: int|
            #[trigger] stopped_at(a, s0, mid, first, k, r1) && start.gains_sent_before(
                gains_done,
                k,
                kp,
                ki,
                kd,
            );
        proof {
            assert((first + second).take(first.len() as int) =~= first);
        }
        if let Err(e) = r1 {
            proof {
                lemma_stopped_at_prefix(a, s0, mid, first, second, k, r1);
                lemma_ran_failed_rest(a, s0, mid, first + second, first.len() as int, r1);
            }
            return Err(e);
        }
        proof {
            assert(r1->Ok_0 == ());
            assert(r1 == Ok::<(), MotorError>(()));
            assert(k == 6);
        }
        let r2 = self.configure_protection();
        proof {
            lemma_ran_concat(a, s0, mid, self.s, first, second, r2);
            let j = choose|j: int| #[trigger] stopped_at(a, mid, self.s, second, j, r2);
            lemma_stopped_at_suffix(a, s0, mid, self.s, first, second, j, r2);
            assert(stopped_at(a, s0, self.s, first + second, first.len() + j, r2));
            assert(start.gains_sent_before(*self, first.len() + j, kp, ki, kd));
        }
        r2
    }
}

/// The speed byte carries the direction in its top bit (set for forward
/// speeds) and the magnitude of the speed in the low 7 bits.
pub proof fn lemma_speed_code_layout(speed: i8)
    requires
        speed != i8::MIN,
    ensures
        (speed_code(speed) >= 0x80) == (speed >= 0),
        speed_code(speed) % 0x80 == speed_magnitude(speed),
{
}


/// A fresh driver records the gains 1616, 288 and 1616, the acceleration
/// 286 and the microstep 16; its startup sends every one of them to the
/// board, so that the board and the driver agree on them.
pub proof fn lemma_startup_sends_default_settings<S: Serial>(t: Servo42C<S>)
    requires
        t.kp == 1616,
        t.ki == 288,
        t.kd == 1616,
        t.acc == 286,
        t.microstep == 16,
    ensures
        sends_settings_of(startup_cmds(), t),
        startup_cmds().len() == 7,
        startup_cmds()[5] == (0x84u8, seq![t.microstep], Check::Accepted),
{
    let c = startup_cmds();
    assert(c[1] == (0xA1u8, t.kp.encoding(), Check::Accepted));
    assert(c[2] == (0xA2u8, t.ki.encoding(), Check::Accepted));
    assert(c[3] == (0xA3u8, t.kd.encoding(), Check::Accepted));
    assert(c[4] == (0xA4u8, t.acc.encoding(), Check::Accepted));
    assert(c[5] == (0x84u8, seq![t.microstep], Check::Accepted));
}

/// The preparation for the linear-acceleration controller leaves the motor
/// enabled: every enable command (0xF3) in it carries the flag for "on",
/// and there is one, the twelfth command.
pub proof fn lemma_linear_acc_enables(kp: u16, ki: u16, kd: u16)
    ensures
        linear_acc_cmds(kp, ki, kd)[11] == (0xF3u8, seq![flag_code(true)], Check::Ignored),
        forall|i: int|
            0 <= i < linear_acc_cmds(kp, ki, kd).len() && #[trigger] linear_acc_cmds(kp, ki, kd)[i].0
                == 0xF3u8 ==> linear_acc_cmds(kp, ki, kd)[i].1 == seq![flag_code(true)],
        flag_code(true) == 1,
{
    let c = linear_acc_cmds(kp, ki, kd);
    assert(c.len() == 13);
    assert forall|i: int| 0 <= i < c.len() && #[trigger] c[i].0 == 0xF3u8 implies c[i].1 == seq![
        flag_code(true),
    ] by {
        if i < 6 {
            assert(c[i] == gain_cmds(kp, ki, kd)[i]);
        } else {
            assert(c[i] == protection_cmds()[i - 6]);
        }
    }
}

/// The speed limit is 2000 rpm at the current microstep, a speed of `v`
/// being |`v`| * 30000 / (`microstep` * 200) rpm: a speed is refused exactly
/// when 40 * `microstep` < 3 * |`v`|. So a finer microstep never refuses a
/// speed that a coarser one allows, and each doubling of the microstep
/// doubles the speed that goes through.
pub proof fn lemma_speed_limit(speed: i8, microstep: u8, finer: u8)
    requires
        microstep <= finer,
    ensures
        too_fast(speed, microstep) <==> 40 * microstep < 3 * speed_magnitude(speed),
        too_fast(speed, finer) ==> too_fast(speed, microstep),
        speed_magnitude(speed) * 3 <= 40 * microstep ==> !too_fast(speed, microstep),
{
}

/// An encoder reading of `turns` whole turns and `phase` 1/65536 of a turn
/// is the position `turns` * 65536 + `phase`: one more whole turn adds
/// exactly 65536, one more unit of phase adds 1, and a failed reading stays
/// the same failure.
pub proof fn lemma_encoder_position(turns: i32, phase: u16, e: MotorError)
    ensures
        encoder_position(Ok((turns, phase))) matches Ok(x) && x == turns * 65536 + phase,
        turns < i32::MAX ==> encoder_position(Ok(((turns + 1) as i32, phase)))->Ok_0
            == encoder_position(Ok((turns, phase)))->Ok_0 + 65536,
        encoder_position(Err(e)) == Err::<i64, MotorError>(e),
{
}

} // verus!
