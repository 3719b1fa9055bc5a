//! Registers, and the bank that holds them by name.

use crate::error::ErrorKind;
use crate::table::NameTable;
use vstd::prelude::*;

verus! {

/// A register: one unsigned 64-bit value.
#[derive(Clone, Copy, Debug, PartialEq, Eq)]
pub struct Register {
    pub value: u64,
}

impl Register {
    /// Writes a new value to the register.
    pub fn write(&mut self, n: u64)
        ensures
            final(self).value == n,
    {
        self.value = n;
    }
}

/// The name of the accumulator, the register that `add`, `sub`, `mul` and
/// `not` work on.
pub open spec fn acc_name() -> Seq<char> {
    "acc"@
}

/// What reading a register gives: its value, or
/// [`ErrorKind::UndefinedRegister`] where the bank does not hold it.
pub open spec fn read_register(bank: Map<Seq<char>, u64>, name: Seq<char>) -> Result<
    u64,
    ErrorKind,
> {
    if bank.contains_key(name) {
        Ok(bank[name])
    } else {
        Err(ErrorKind::UndefinedRegister)
    }
}

/// The registers of a machine, each under its name.
///
/// A bank is a finite map from names to values. A new bank holds the
/// accumulator; a register comes into being when it is first written, and
/// then stays.
pub struct RegisterBank {
    registers: NameTable<Register>,
}

impl RegisterBank {
    /// The bank as a map from register names to values.
    pub closed spec fn view(&self) -> Map<Seq<char>, u64> {
        self.registers@.map_values(|r: Register| r.value)
    }

    /// The names of the registers, in the order in which they were first
    /// written.
    pub closed spec fn names(&self) -> Seq<Seq<char>> {
        self.registers.names()
    }

    /// A bank that holds the accumulator alone, at 0.
    pub fn new() -> (bank: RegisterBank)
        ensures
            bank@ == Map::<Seq<char>, u64>::empty().insert(acc_name(), 0),
            bank.names() == seq![acc_name()],
    {
        let mut registers: NameTable<Register> = NameTable::new();
        registers.insert("acc", Register { value: 0 });
        let bank = RegisterBank { registers };
        assert(bank@ =~= Map::<Seq<char>, u64>::empty().insert(acc_name(), 0));
        assert(bank.names() =~= seq![acc_name()]);
        bank
    }

    /// Reads a register.
    ///
    /// Fails with [`ErrorKind::UndefinedRegister`] where nothing was ever
    /// written under the name.
    pub fn read(&self, name: &str) -> (value: Result<u64, ErrorKind>)
        ensures
            value == read_register(self@, name@),
    {
        match self.registers.get(name) {
            Some(register) => Ok(register.value),
            None => Err(ErrorKind::UndefinedRegister),
        }
    }

    /// Writes a register, which comes into being if the bank does not hold
    /// it yet. No other register changes.
    pub fn write(&mut self, name: &str, value: u64)
        ensures
            final(self)@ == old(self)@.insert(name@, value),
            final(self).names() == (if old(self)@.contains_key(name@) {
                old(self).names()
            } else {
                old(self).names().push(name@)
            }),
    {
        let mut register = match self.registers.get(name) {
            Some(register) => register,
            None => Register { value: 0 },
        };
        register.write(value);
        self.registers.insert(name, register);
        assert(self@ =~= old(self)@.insert(name@, value));
    }

    /// The number of registers in the bank: its names are its registers,
    /// each counted once.
    pub fn len(&self) -> (n: usize)
        ensures
            n == self.names().len(),
            self.names().no_duplicates(),
            forall|name: Seq<char>| self.names().contains(name) <==> self@.contains_key(name),
    {
        proof {
            self.registers.lemma_names();
        }
        self.registers.len()
    }

    /// The name and the value of the register at an index, counted in the
    /// order in which the registers were first written.
    pub fn entry(&self, i: usize) -> (pair: (String, u64))
        requires
            i < self.names().len(),
        ensures
            pair.0@ == self.names()[i as int],
            read_register(self@, pair.0@) == Ok::<u64, ErrorKind>(pair.1),
    {
        let (name, register) = self.registers.entry(i);
        (name, register.value)
    }
}

} // verus!
