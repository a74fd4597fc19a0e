//! The register interface between the host driver and the FX3 firmware.
//!
//! Every register is a 32-bit value that can be read and written through a
//! vendor control transfer; the register address travels in the `index` field.
use vstd::prelude::*;

verus! {

/// Vendor identifier of the device once the firmware runs.
pub const FIRMWARE_VID: u16 = 0x04B4;

/// Product identifier of the device once the firmware runs.
pub const FIRMWARE_PID: u16 = 0x3DDC;

/// Product identifier of the FX3 boot loader (before any firmware is loaded).
pub const BOOTLOADER_PID: u16 = 0x00f3;

/// Major firmware interface version the driver speaks.
pub const FIRMWARE_VER_MAJOR: u32 = 3;

/// Minor firmware interface version the driver speaks.
pub const FIRMWARE_VER_MINOR: u32 = 0;

/// ADC register bit: ADC enabled (disabling it also stops streaming).
pub const REG_ADC_ENABLE: u8 = 0x01;
/// ADC register bit: dither enabled.
pub const REG_ADC_DITHER: u8 = 0x02;
/// ADC register bit: randomizer enabled.
pub const REG_ADC_RANDO: u8 = 0x04;
/// ADC register bit: PGA enabled.
pub const REG_ADC_PGA: u8 = 0x08;
/// ADC register bit: high impedance HF input.
pub const REG_HF_HIGHZ: u8 = 0x10;
/// ADC register bit: external clock.
pub const REG_EXT_CLOCK: u8 = 0x20;

/// Vendor requests understood by the firmware.
#[derive(Debug, Clone, Copy, PartialEq, Eq, Structural)]
pub enum FX3Command {
    /// Register operation; the direction of the transfer decides read or write.
    REGOP,
    /// Access to the non-volatile I2C memory.
    NVMOP,
}

impl FX3Command {
    /// The vendor request code carried in `bRequest`.
    pub fn code(&self) -> (c: u8)
        ensures
            c == spec_command_code(*self),
    {
        match self {
            FX3Command::REGOP => 0x01,
            FX3Command::NVMOP => 0x03,
        }
    }
}

/// The request code of a vendor command.
pub open spec fn spec_command_code(c: FX3Command) -> u8 {
    match c {
        FX3Command::REGOP => 0x01,
        FX3Command::NVMOP => 0x03,
    }
}

/// The registers of the firmware.
#[allow(non_camel_case_types)]
#[derive(Debug, Clone, Copy, PartialEq, Eq, Structural)]
pub enum Register {
    /// Reset the device on write; reads return 0.
    REG_INFO_RESET,
    /// ADC sampling frequency in Hz.
    REG_ADCFREQ,
    /// ADC enable, dither, randomizer and PGA bits.
    REG_ADC,
    /// External GPIO output state (bits 0 to 6).
    REG_EXT_GPIO,
    /// Tuner enable (bit 0), PLL lock (bit 1), harmonic mode (bit 2).
    REG_TUNER,
    REG_DIRECT_IF_GAIN,
    REG_DIRECT_RF_GAIN,
    REG_DIRECT_ANT_BIAS,
    /// Anti-alias filter selection (RX888 pro only).
    REG_DIRECT_ADC_FILTER,
    REG_DIRECT_PREAMP,
    REG_TUNER_IF_GAIN,
    REG_TUNER_RF_GAIN,
    REG_TUNER_ANT_BIAS,
    REG_TUNER_PREAMP,
    /// Low 32 bits of the tuner frequency; writing it applies the frequency.
    REG_TUNER_CENTER_FREQ_LOW,
    /// High 32 bits of the tuner frequency; applied by the next low write.
    REG_TUNER_CENTER_FREQ_HIGH,
}

/// The address of a register.
pub open spec fn spec_register_address(r: Register) -> u8 {
    match r {
        Register::REG_INFO_RESET => 0x00,
        Register::REG_ADCFREQ => 0x01,
        Register::REG_ADC => 0x02,
        Register::REG_EXT_GPIO => 0x03,
        Register::REG_TUNER => 0x82,
        Register::REG_DIRECT_IF_GAIN => 0x90,
        Register::REG_DIRECT_RF_GAIN => 0x91,
        Register::REG_DIRECT_ANT_BIAS => 0x92,
        Register::REG_DIRECT_ADC_FILTER => 0x93,
        Register::REG_DIRECT_PREAMP => 0x98,
        Register::REG_TUNER_IF_GAIN => 0xa0,
        Register::REG_TUNER_RF_GAIN => 0xa1,
        Register::REG_TUNER_ANT_BIAS => 0xa2,
        Register::REG_TUNER_PREAMP => 0xa8,
        Register::REG_TUNER_CENTER_FREQ_LOW => 0xa3,
        Register::REG_TUNER_CENTER_FREQ_HIGH => 0xa4,
    }
}

impl Register {
    /// The register address carried in the `index` field of a transfer.
    pub fn address(&self) -> (a: u8)
        ensures
            a == spec_register_address(*self),
    {
        match self {
            Register::REG_INFO_RESET => 0x00,
            Register::REG_ADCFREQ => 0x01,
            Register::REG_ADC => 0x02,
            Register::REG_EXT_GPIO => 0x03,
            Register::REG_TUNER => 0x82,
            Register::REG_DIRECT_IF_GAIN => 0x90,
            Register::REG_DIRECT_RF_GAIN => 0x91,
            Register::REG_DIRECT_ANT_BIAS => 0x92,
            Register::REG_DIRECT_ADC_FILTER => 0x93,
            Register::REG_DIRECT_PREAMP => 0x98,
            Register::REG_TUNER_IF_GAIN => 0xa0,
            Register::REG_TUNER_RF_GAIN => 0xa1,
            Register::REG_TUNER_ANT_BIAS => 0xa2,
            Register::REG_TUNER_PREAMP => 0xa8,
            Register::REG_TUNER_CENTER_FREQ_LOW => 0xa3,
            Register::REG_TUNER_CENTER_FREQ_HIGH => 0xa4,
        }
    }
}

/// Distinct registers have distinct addresses.
pub proof fn lemma_register_address_injective(a: Register, b: Register)
    requires
        a != b,
    ensures
        spec_register_address(a) != spec_register_address(b),
{
}

/// The radio models the firmware reports.
#[allow(non_camel_case_types)]
#[derive(Debug, Clone, Copy, PartialEq, Eq, Structural)]
pub enum RadioModel {
    NORADIO,
    RX888,
    RX888r2,
    RX888plus,
    RX888pro,
}

/// The model code the firmware reports for a model.
pub open spec fn spec_model_code(m: RadioModel) -> u8 {
    match m {
        RadioModel::NORADIO => 0x00,
        RadioModel::RX888 => 0x03,
        RadioModel::RX888r2 => 0x04,
        RadioModel::RX888plus => 0x05,
        RadioModel::RX888pro => 0x07,
    }
}

impl RadioModel {
    /// The model code the firmware reports for this model.
    pub fn code(&self) -> (c: u8)
        ensures
            c == spec_model_code(*self),
    {
        match self {
            RadioModel::NORADIO => 0x00,
            RadioModel::RX888 => 0x03,
            RadioModel::RX888r2 => 0x04,
            RadioModel::RX888plus => 0x05,
            RadioModel::RX888pro => 0x07,
        }
    }

    /// The model that a firmware model code names, if any.
    pub fn from_code(code: u8) -> (m: Option<RadioModel>)
        ensures
            m matches Some(model) ==> spec_model_code(model) == code,
            m is None <==> (forall|model: RadioModel| spec_model_code(model) != code),
    {
        let r = match code {
            0x00 => Some(RadioModel::NORADIO),
            0x03 => Some(RadioModel::RX888),
            0x04 => Some(RadioModel::RX888r2),
            0x05 => Some(RadioModel::RX888plus),
            0x07 => Some(RadioModel::RX888pro),
            _ => None,
        };
        proof {
            if r is None {
                assert forall|model: RadioModel| spec_model_code(model) != code by {
                    match model {
                        RadioModel::NORADIO => {},
                        RadioModel::RX888 => {},
                        RadioModel::RX888r2 => {},
                        RadioModel::RX888plus => {},
                        RadioModel::RX888pro => {},
                    }
                }
            }
        }
        r
    }
}

/// Reading back the code of a model gives the model again.
pub proof fn lemma_model_code_roundtrip(m: RadioModel, code: u8)
    requires
        spec_model_code(m) == code,
    ensures
        forall|other: RadioModel| spec_model_code(other) == code ==> other == m,
{
}

} // verus!
