//! Quality of service levels.
use vstd::prelude::*;

verus! {

/// How hard a message's delivery is tried: at most once, at least once, exactly once.
#[derive(Debug, PartialEq, Eq, Structural, PartialOrd, Ord, Clone, Copy, Hash)]
pub enum QualityOfService {
    Level0,
    Level1,
    Level2,
}

/// What is granted to a subscription: a level, or nothing.
#[derive(Debug, PartialEq, Eq, Structural, Clone, Copy)]
pub enum SubscribeReturnCode {
    MaximumQoSLevel0,
    MaximumQoSLevel1,
    MaximumQoSLevel2,
    Failure,
}

impl SubscribeReturnCode {
    pub open spec fn number(self) -> u8 {
        match self {
            SubscribeReturnCode::MaximumQoSLevel0 => 0,
            SubscribeReturnCode::MaximumQoSLevel1 => 1,
            SubscribeReturnCode::MaximumQoSLevel2 => 2,
            SubscribeReturnCode::Failure => 0x80,
        }
    }

    /// The code with the given number.
    pub fn from_u8(n: u8) -> (r: Option<SubscribeReturnCode>)
        ensures
            match r {
                Some(code) => code.number() == n,
                None => n > 2 && n != 0x80,
            },
    {
        if n == 0 {
            Some(SubscribeReturnCode::MaximumQoSLevel0)
        } else if n == 1 {
            Some(SubscribeReturnCode::MaximumQoSLevel1)
        } else if n == 2 {
            Some(SubscribeReturnCode::MaximumQoSLevel2)
        } else if n == 0x80 {
            Some(SubscribeReturnCode::Failure)
        } else {
            None
        }
    }

    /// The code that grants a level.
    pub fn granted(level: QualityOfService) -> (r: SubscribeReturnCode)
        ensures
            r.number() == level.number(),
    {
        match level {
            QualityOfService::Level0 => SubscribeReturnCode::MaximumQoSLevel0,
            QualityOfService::Level1 => SubscribeReturnCode::MaximumQoSLevel1,
            QualityOfService::Level2 => SubscribeReturnCode::MaximumQoSLevel2,
        }
    }
}

/// A level together with the packet identifier that levels above zero need.
#[derive(Debug, PartialEq, Eq, Structural, Clone, Copy, Hash)]
pub enum QoSWithPacketIdentifier {
    Level0,
    Level1(u16),
    Level2(u16),
}

impl QualityOfService {
    /// The number of the level.
    pub open spec fn number(self) -> u8 {
        match self {
            QualityOfService::Level0 => 0,
            QualityOfService::Level1 => 1,
            QualityOfService::Level2 => 2,
        }
    }

    /// The lower of two levels.
    pub open spec fn lower(self, other: QualityOfService) -> QualityOfService {
        if self.number() <= other.number() {
            self
        } else {
            other
        }
    }

    pub fn to_u8(self) -> (r: u8)
        ensures
            r == self.number(),
    {
        match self {
            QualityOfService::Level0 => 0,
            QualityOfService::Level1 => 1,
            QualityOfService::Level2 => 2,
        }
    }

    pub fn from_u8(n: u8) -> (r: Option<QualityOfService>)
        ensures
            match r {
                Some(q) => q.number() == n,
                None => n > 2,
            },
    {
        match n {
            0 => Some(QualityOfService::Level0),
            1 => Some(QualityOfService::Level1),
            2 => Some(QualityOfService::Level2),
            _ => None,
        }
    }

    pub fn min(self, other: QualityOfService) -> (r: QualityOfService)
        ensures
            r == self.lower(other),
    {
        if self.to_u8() <= other.to_u8() {
            self
        } else {
            other
        }
    }

    /// The level with an identifier; level zero drops the identifier.
    pub open spec fn spec_with(self, pkid: u16) -> QoSWithPacketIdentifier {
        match self {
            QualityOfService::Level0 => QoSWithPacketIdentifier::Level0,
            QualityOfService::Level1 => QoSWithPacketIdentifier::Level1(pkid),
            QualityOfService::Level2 => QoSWithPacketIdentifier::Level2(pkid),
        }
    }

    #[verifier::when_used_as_spec(spec_with)]
    pub fn with(self, pkid: u16) -> (r: QoSWithPacketIdentifier)
        ensures
            r == self.spec_with(pkid),
    {
        match self {
            QualityOfService::Level0 => QoSWithPacketIdentifier::Level0,
            QualityOfService::Level1 => QoSWithPacketIdentifier::Level1(pkid),
            QualityOfService::Level2 => QoSWithPacketIdentifier::Level2(pkid),
        }
    }
}

impl QoSWithPacketIdentifier {
    pub open spec fn spec_level(self) -> QualityOfService {
        match self {
            QoSWithPacketIdentifier::Level0 => QualityOfService::Level0,
            QoSWithPacketIdentifier::Level1(_) => QualityOfService::Level1,
            QoSWithPacketIdentifier::Level2(_) => QualityOfService::Level2,
        }
    }

    #[verifier::when_used_as_spec(spec_level)]
    pub fn level(self) -> (r: QualityOfService)
        ensures
            r == self.spec_level(),
    {
        match self {
            QoSWithPacketIdentifier::Level0 => QualityOfService::Level0,
            QoSWithPacketIdentifier::Level1(_) => QualityOfService::Level1,
            QoSWithPacketIdentifier::Level2(_) => QualityOfService::Level2,
        }
    }
}

/// Law: the lower of two levels is one of them, and neither is lower than it: level zero is the lowest,
/// level two the highest.
pub proof fn law_lower_level(a: QualityOfService, b: QualityOfService)
    ensures
        a.lower(b) == a || a.lower(b) == b,
        a == QualityOfService::Level0 ==> a.lower(b) == a && b.lower(a) == a,
        a == QualityOfService::Level2 ==> a.lower(b) == b && b.lower(a) == b,
        a.lower(b) == b.lower(a),
{
}

/// Law: a level is not changed by the identifier that it is given, and keeps the identifier unless it
/// is level zero.
pub proof fn law_level_with_identifier(q: QualityOfService, pkid: u16)
    ensures
        q.spec_with(pkid).spec_level() == q,
        q == QualityOfService::Level1 ==> q.spec_with(pkid) == QoSWithPacketIdentifier::Level1(pkid),
        q == QualityOfService::Level2 ==> q.spec_with(pkid) == QoSWithPacketIdentifier::Level2(pkid),
{
}

} // verus!
