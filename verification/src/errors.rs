use vstd::prelude::*;

verus! {

/// Every way in which an operation of the engine can be refused.
#[derive(Clone, Copy, Debug, PartialEq, Eq, Structural)]
pub enum Errors {
    /// A token amount does not fit the 64-bit transfer width.
    TokenMaxExceeded,
    /// A product does not fit in 128 bits.
    MultiplicationOverflow,
    /// The lower tick of a range is not below its upper tick.
    InvalidTickRange,
    InvalidTickSpacing,
    InvalidFeeGrowth,
    InvalidPool,
    InvalidPosition,
    /// A checked arithmetic step left the 128-bit range.
    MathError,
    /// No initialized tick lies in the direction asked for.
    TickNotFound,
    /// A swap would need more steps than one call may take.
    TooManyIterations,
    InvalidAmount,
    /// A computed denominator is zero.
    DivisionByZero,
    /// An output was asked for that the liquidity at hand cannot pay.
    InsufficientLiquidity,
    /// The fee rate is not below the fee denominator.
    InvalidFeeRate,
    /// A tick, or the tick of a price, lies outside the supported range.
    InvalidTick,
}

/// The failures of the liquidity-to-amount conversion.
#[derive(Clone, Copy, Debug, PartialEq, Eq, Structural)]
pub enum ErrorCode {
    /// A product does not fit in 128 bits.
    MultiplicationOverflow,
    /// A computed denominator is zero.
    DivisionByZero,
    /// The lower price of a range is above its upper price.
    InvalidTickRange,
}

impl ErrorCode {
    /// The general error kind that stands for this failure.
    pub open spec fn as_errors(self) -> Errors {
        match self {
            ErrorCode::MultiplicationOverflow => Errors::MultiplicationOverflow,
            ErrorCode::DivisionByZero => Errors::DivisionByZero,
            ErrorCode::InvalidTickRange => Errors::InvalidTickRange,
        }
    }
}

impl From<ErrorCode> for Errors {
    fn from(code: ErrorCode) -> (r: Errors)
        ensures
            r == code.as_errors(),
    {
        match code {
            ErrorCode::MultiplicationOverflow => Errors::MultiplicationOverflow,
            ErrorCode::DivisionByZero => Errors::DivisionByZero,
            ErrorCode::InvalidTickRange => Errors::InvalidTickRange,
        }
    }
}

impl vstd::std_specs::convert::FromSpecImpl<ErrorCode> for Errors {
    open spec fn obeys_from_spec() -> bool {
        true
    }

    open spec fn from_spec(code: ErrorCode) -> Errors {
        code.as_errors()
    }
}

} // verus!
