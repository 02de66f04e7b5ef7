//! Errors the exchange reports, each with its message.
use vstd::prelude::*;

verus! {

/// A refused request.
#[derive(Clone, Copy, Debug, PartialEq, Eq, Structural)]
pub enum ExchangeError {
    AccountNotRegistered,
    InsufficientStorage,
    TokenNotWhitelisted,
    LpNotRegistered,
    LpAlreadyRegistered,
    NoStorageCanWithdraw,
    StorageWithdrawTooMuch,
    TokenNotRegistered,
    NotEnoughTokens,
    NonZeroTokenBalance,
    IllegalWithdrawAmount,
    ZeroAmount,
    ZeroShares,
    TransferToSelf,
    InsufficientLpShares,
    WrongActionResult,
    DecimalIllegal,
    AmpIllegal,
    FeeIllegal,
    MissingToken,
    TokensCountIllegal,
    InitTokenBalance,
    InvariantCalcErr,
    LpShareCalcErr,
    Slippage,
    MinReserve,
    SwapOutCalcErr,
    SwapDupTokens,
    InvalidActionType,
    AmpInLock,
    InsufficientRampTime,
    InvalidAmpFactor,
    AmpLargeChange,
    TokenDuplicates,
    FeeTooLarge,
    NotEnoughPoolTokens,
    TooManyTokens,
    WrongTokenCount,
    NoShares,
    NotEnoughShares,
    MinAmount,
    InvalidSwap,
    InvariantReduced,
    InvalidClientEchoTokenId,
    InvalidClientEchoSenderId,
    InvalidWildcard,
    AlreadyInWhitelist,
    NotInWhitelist,
    JustInitialized,
    InvalidStalenessDuration,
    InvalidPythDuration,
    IllegalPoolId,
    MalformedRatedPrice,
    /// A swap volume of pool `pool_id`, entry `index`, its input volume or else its output
    /// volume, would exceed 256 bits.
    VolumeOverflow { pool_id: u64, index: u64, input: bool },
    PriceIdentifierLength,
    PriceIdentifierHex,
    RecencyTooLarge,
    PriceInFuture,
    PriceTooStale,
    PriceAssetMismatch,
    MissingBasePrice,
    MissingRatePrice,
    DecimalsInconsistency,
    InvalidPythBasePrice,
    InvalidPythRatePrice,
    PythBasePriceStale,
    PythRatePriceStale,
    Unsupported,
    DepositNeeded,
    ContractPaused,
    FrozenToken,
    AtLeastOneSwap,
    NoPool,
    InvalidVolumes,
    NotAllowed,
    AtLeastOneYocto,
    BelowMinAmount,
    TokensDecimalsMismatch,
    ArithmeticOverflow,
    OneYoctoRequired,
    NotStablePool,
    IllegalFee,
    InvalidRegister,
    InvalidUnregister,
    WrongMsgFormat,
    ZeroTransferAmount,
    /// A shadow action of no shares.
    ZeroShadowAmount,
    /// A shadow action of more shares than `max`, what is available or cast.
    ShadowAmountTooLarge { max: u128 },
    /// Fewer shares cast to a farm or to burrowland than a release asks for.
    NotEnoughShadowShares,
    NotEnoughFreeShares,
    OneOutTokenOnly,
    NeedMinAmounts,
    NeedMinShares,
    EmptyHotZap,
    LostfoundNotWhitelisted,
    InvalidRateType,
    StorageDepositShort,
    InvalidPythPrice,
    PythPriceStale,
    DegenNotPriced,
    InvalidAmount,
    InvalidTokenId,
    DepositLessThanMinStorage,
}

impl ExchangeError {
    /// The text of the message the exchange reports for this error.
    pub open spec fn spec_message(&self) -> Seq<char> {
        match *self {
            ExchangeError::AccountNotRegistered => "E10: account not registered"@,
            ExchangeError::InsufficientStorage => "E11: insufficient $NEAR storage deposit"@,
            ExchangeError::TokenNotWhitelisted => "E12: token not whitelisted"@,
            ExchangeError::LpNotRegistered => "E13: LP not registered"@,
            ExchangeError::LpAlreadyRegistered => "E14: LP already registered"@,
            ExchangeError::NoStorageCanWithdraw => "E15: no storage can withdraw"@,
            ExchangeError::StorageWithdrawTooMuch => "E16: storage withdraw too much"@,
            ExchangeError::TokenNotRegistered => "E21: token not registered"@,
            ExchangeError::NotEnoughTokens => "E22: not enough tokens in deposit"@,
            ExchangeError::NonZeroTokenBalance => "E24: non-zero token balance"@,
            ExchangeError::IllegalWithdrawAmount => "E29: Illegal withdraw amount"@,
            ExchangeError::ZeroAmount => "E31: adding zero amount"@,
            ExchangeError::ZeroShares => "E32: minting zero shares"@,
            ExchangeError::TransferToSelf => "E33: transfer to self"@,
            ExchangeError::InsufficientLpShares => "E34: insufficient lp shares"@,
            ExchangeError::WrongActionResult => "E41: wrong action result type"@,
            ExchangeError::DecimalIllegal => "E60: illegal decimal"@,
            ExchangeError::AmpIllegal => "E61: illegal amp"@,
            ExchangeError::FeeIllegal => "E62: illegal fee"@,
            ExchangeError::MissingToken => "E63: missing token"@,
            ExchangeError::TokensCountIllegal => "E64: illegal tokens count"@,
            ExchangeError::InitTokenBalance => "E65: init token balance should be non-zero"@,
            ExchangeError::InvariantCalcErr => "E66: encounter err when calc invariant D"@,
            ExchangeError::LpShareCalcErr => "E67: encounter err when calc lp shares"@,
            ExchangeError::Slippage => "E68: slippage error"@,
            ExchangeError::MinReserve => "E69: pool reserved token balance less than MIN_RESERVE"@,
            ExchangeError::SwapOutCalcErr => "E70: encounter err when calc swap out"@,
            ExchangeError::SwapDupTokens => "E71: illegal swap with duplicated tokens"@,
            ExchangeError::InvalidActionType => "E77: invalid action type"@,
            ExchangeError::AmpInLock => "E81: amp is currently in lock"@,
            ExchangeError::InsufficientRampTime => "E82: insufficient ramp time"@,
            ExchangeError::InvalidAmpFactor => "E83: invalid amp factor"@,
            ExchangeError::AmpLargeChange => "E84: amp factor change is too large"@,
            ExchangeError::TokenDuplicates => "E92: token duplicated"@,
            ExchangeError::FeeTooLarge => "ERR_FEE_TOO_LARGE"@,
            ExchangeError::NotEnoughPoolTokens => "ERR_NOT_ENOUGH_TOKENS"@,
            ExchangeError::TooManyTokens => "ERR_TOO_MANY_TOKENS"@,
            ExchangeError::WrongTokenCount => "ERR_WRONG_TOKEN_COUNT"@,
            ExchangeError::NoShares => "ERR_NO_SHARES"@,
            ExchangeError::NotEnoughShares => "ERR_NOT_ENOUGH_SHARES"@,
            ExchangeError::MinAmount => "ERR_MIN_AMOUNT"@,
            ExchangeError::InvalidSwap => "ERR_INVALID"@,
            ExchangeError::InvariantReduced => "ERR_INVARIANT"@,
            ExchangeError::InvalidClientEchoTokenId => "Invalid client echo token id"@,
            ExchangeError::InvalidClientEchoSenderId => "Invalid client echo sender id"@,
            ExchangeError::InvalidWildcard => "Wildcard id must start with '*.'"@,
            ExchangeError::AlreadyInWhitelist => "Id already exist"@,
            ExchangeError::NotInWhitelist => "Invalid id"@,
            ExchangeError::JustInitialized => "Just initialized, try again!"@,
            ExchangeError::InvalidStalenessDuration => "Invalid maximum_staleness_duration_sec"@,
            ExchangeError::InvalidPythDuration => "Invalid pyth_price_valid_duration_sec"@,
            ExchangeError::IllegalPoolId => "E87: illegal pool id"@,
            ExchangeError::MalformedRatedPrice => "E126: Failed to parse cross-contract call result"@,
            ExchangeError::VolumeOverflow { .. } => "swap volume u256 overflow"@,
            ExchangeError::PriceIdentifierLength => "expected a 64 character hex string"@,
            ExchangeError::PriceIdentifierHex => "Invalid hex string"@,
            ExchangeError::RecencyTooLarge => "Recency duration in the oracle call is larger than allowed maximum"@,
            ExchangeError::PriceInFuture => "Price data timestamp is in the future"@,
            ExchangeError::PriceTooStale => "Price data timestamp is too stale"@,
            ExchangeError::PriceAssetMismatch => ""@,
            ExchangeError::MissingBasePrice => "Missing base token price"@,
            ExchangeError::MissingRatePrice => "Missing rate token price"@,
            ExchangeError::DecimalsInconsistency => "Token decimals inconsistency"@,
            ExchangeError::InvalidPythBasePrice => "Invalid pyth base price"@,
            ExchangeError::InvalidPythRatePrice => "Invalid pyth rate price"@,
            ExchangeError::PythBasePriceStale => "Pyth base price publish_time is too stale"@,
            ExchangeError::PythRatePriceStale => "Pyth rate price publish_time is too stale"@,
            ExchangeError::Unsupported => "not implemented"@,
            ExchangeError::DepositNeeded => "E27: attach 1yN to swap tokens not in whitelist"@,
            ExchangeError::ContractPaused => "E51: contract paused"@,
            ExchangeError::FrozenToken => "E52: token frozen"@,
            ExchangeError::AtLeastOneSwap => "E72: at least one swap"@,
            ExchangeError::NoPool => "E85: invalid pool id"@,
            ExchangeError::InvalidVolumes => "swap volumes do not match the pool tokens"@,
            ExchangeError::NotAllowed => "E100: no permission to invoke this"@,
            ExchangeError::AtLeastOneYocto => "E35: requires attached deposit of at least 1 yoctoNEAR"@,
            ExchangeError::BelowMinAmount => "E86: amount need above min amount"@,
            ExchangeError::TokensDecimalsMismatch => "The number of tokens is inconsistent with the number of decimals."@,
            ExchangeError::ArithmeticOverflow => "arithmetic overflow"@,
            ExchangeError::OneYoctoRequired => "Requires attached deposit of exactly 1 yoctoNEAR"@,
            ExchangeError::NotStablePool => "E88: not stable pool"@,
            ExchangeError::IllegalFee => "E101: illegal fee"@,
            ExchangeError::InvalidRegister => "E110: Invalid register"@,
            ExchangeError::InvalidUnregister => "E111: Invalid unregister"@,
            ExchangeError::WrongMsgFormat => "E28: Illegal msg in ft_transfer_call"@,
            ExchangeError::ZeroTransferAmount => "transfer_amount must be greater than zero"@,
            ExchangeError::ZeroShadowAmount => "amount must be greater than zero"@,
            ExchangeError::ShadowAmountTooLarge { .. } => "amount must be less than or equal to the shares available"@,
            ExchangeError::NotEnoughShadowShares => "not enough shares cast"@,
            ExchangeError::NotEnoughFreeShares => "Not enough free shares"@,
            ExchangeError::OneOutTokenOnly => "Invalid actions, only one out token is allowed"@,
            ExchangeError::NeedMinAmounts => "Need input min_amounts"@,
            ExchangeError::NeedMinShares => "Need input min_shares"@,
            ExchangeError::EmptyHotZap => "hot zap needs actions and liquidity to add"@,
            ExchangeError::InvalidPythPrice => "Invalid pyth price"@,
            ExchangeError::PythPriceStale => "Pyth price publish_time is too stale"@,
            ExchangeError::DegenNotPriced => "degen token is not price"@,
            ExchangeError::InvalidAmount => "Invalid amount"@,
            ExchangeError::InvalidTokenId => "Invalid token_id"@,
            ExchangeError::DepositLessThanMinStorage => "E17: deposit less than min storage"@,
            ExchangeError::StorageDepositShort => "ERR_STORAGE_DEPOSIT: attached deposit does not cover the storage taken"@,
            ExchangeError::InvalidRateType => "E127: Invalid rate type"@,
            ExchangeError::LostfoundNotWhitelisted => "ERR: non-whitelisted token can NOT deposit into lost-found."@,
        }
    }

    /// The message the exchange reports for this error.
    pub fn message(&self) -> (r: &'static str)
        ensures
            r@ == self.spec_message(),
    {
        match self {
            ExchangeError::AccountNotRegistered => "E10: account not registered",
            ExchangeError::InsufficientStorage => "E11: insufficient $NEAR storage deposit",
            ExchangeError::TokenNotWhitelisted => "E12: token not whitelisted",
            ExchangeError::LpNotRegistered => "E13: LP not registered",
            ExchangeError::LpAlreadyRegistered => "E14: LP already registered",
            ExchangeError::NoStorageCanWithdraw => "E15: no storage can withdraw",
            ExchangeError::StorageWithdrawTooMuch => "E16: storage withdraw too much",
            ExchangeError::TokenNotRegistered => "E21: token not registered",
            ExchangeError::NotEnoughTokens => "E22: not enough tokens in deposit",
            ExchangeError::NonZeroTokenBalance => "E24: non-zero token balance",
            ExchangeError::IllegalWithdrawAmount => "E29: Illegal withdraw amount",
            ExchangeError::ZeroAmount => "E31: adding zero amount",
            ExchangeError::ZeroShares => "E32: minting zero shares",
            ExchangeError::TransferToSelf => "E33: transfer to self",
            ExchangeError::InsufficientLpShares => "E34: insufficient lp shares",
            ExchangeError::WrongActionResult => "E41: wrong action result type",
            ExchangeError::DecimalIllegal => "E60: illegal decimal",
            ExchangeError::AmpIllegal => "E61: illegal amp",
            ExchangeError::FeeIllegal => "E62: illegal fee",
            ExchangeError::MissingToken => "E63: missing token",
            ExchangeError::TokensCountIllegal => "E64: illegal tokens count",
            ExchangeError::InitTokenBalance => "E65: init token balance should be non-zero",
            ExchangeError::InvariantCalcErr => "E66: encounter err when calc invariant D",
            ExchangeError::LpShareCalcErr => "E67: encounter err when calc lp shares",
            ExchangeError::Slippage => "E68: slippage error",
            ExchangeError::MinReserve => "E69: pool reserved token balance less than MIN_RESERVE",
            ExchangeError::SwapOutCalcErr => "E70: encounter err when calc swap out",
            ExchangeError::SwapDupTokens => "E71: illegal swap with duplicated tokens",
            ExchangeError::InvalidActionType => "E77: invalid action type",
            ExchangeError::AmpInLock => "E81: amp is currently in lock",
            ExchangeError::InsufficientRampTime => "E82: insufficient ramp time",
            ExchangeError::InvalidAmpFactor => "E83: invalid amp factor",
            ExchangeError::AmpLargeChange => "E84: amp factor change is too large",
            ExchangeError::TokenDuplicates => "E92: token duplicated",
            ExchangeError::FeeTooLarge => "ERR_FEE_TOO_LARGE",
            ExchangeError::NotEnoughPoolTokens => "ERR_NOT_ENOUGH_TOKENS",
            ExchangeError::TooManyTokens => "ERR_TOO_MANY_TOKENS",
            ExchangeError::WrongTokenCount => "ERR_WRONG_TOKEN_COUNT",
            ExchangeError::NoShares => "ERR_NO_SHARES",
            ExchangeError::NotEnoughShares => "ERR_NOT_ENOUGH_SHARES",
            ExchangeError::MinAmount => "ERR_MIN_AMOUNT",
            ExchangeError::InvalidSwap => "ERR_INVALID",
            ExchangeError::InvariantReduced => "ERR_INVARIANT",
            ExchangeError::InvalidClientEchoTokenId => "Invalid client echo token id",
            ExchangeError::InvalidClientEchoSenderId => "Invalid client echo sender id",
            ExchangeError::InvalidWildcard => "Wildcard id must start with '*.'",
            ExchangeError::AlreadyInWhitelist => "Id already exist",
            ExchangeError::NotInWhitelist => "Invalid id",
            ExchangeError::JustInitialized => "Just initialized, try again!",
            ExchangeError::InvalidStalenessDuration => "Invalid maximum_staleness_duration_sec",
            ExchangeError::InvalidPythDuration => "Invalid pyth_price_valid_duration_sec",
            ExchangeError::IllegalPoolId => "E87: illegal pool id",
            ExchangeError::MalformedRatedPrice => "E126: Failed to parse cross-contract call result",
            ExchangeError::VolumeOverflow { .. } => "swap volume u256 overflow",
            ExchangeError::PriceIdentifierLength => "expected a 64 character hex string",
            ExchangeError::PriceIdentifierHex => "Invalid hex string",
            ExchangeError::RecencyTooLarge => "Recency duration in the oracle call is larger than allowed maximum",
            ExchangeError::PriceInFuture => "Price data timestamp is in the future",
            ExchangeError::PriceTooStale => "Price data timestamp is too stale",
            ExchangeError::PriceAssetMismatch => "",
            ExchangeError::MissingBasePrice => "Missing base token price",
            ExchangeError::MissingRatePrice => "Missing rate token price",
            ExchangeError::DecimalsInconsistency => "Token decimals inconsistency",
            ExchangeError::InvalidPythBasePrice => "Invalid pyth base price",
            ExchangeError::InvalidPythRatePrice => "Invalid pyth rate price",
            ExchangeError::PythBasePriceStale => "Pyth base price publish_time is too stale",
            ExchangeError::PythRatePriceStale => "Pyth rate price publish_time is too stale",
            ExchangeError::Unsupported => "not implemented",
            ExchangeError::DepositNeeded => "E27: attach 1yN to swap tokens not in whitelist",
            ExchangeError::ContractPaused => "E51: contract paused",
            ExchangeError::FrozenToken => "E52: token frozen",
            ExchangeError::AtLeastOneSwap => "E72: at least one swap",
            ExchangeError::NoPool => "E85: invalid pool id",
            ExchangeError::InvalidVolumes => "swap volumes do not match the pool tokens",
            ExchangeError::NotAllowed => "E100: no permission to invoke this",
            ExchangeError::AtLeastOneYocto => "E35: requires attached deposit of at least 1 yoctoNEAR",
            ExchangeError::BelowMinAmount => "E86: amount need above min amount",
            ExchangeError::TokensDecimalsMismatch => "The number of tokens is inconsistent with the number of decimals.",
            ExchangeError::ArithmeticOverflow => "arithmetic overflow",
            ExchangeError::OneYoctoRequired => "Requires attached deposit of exactly 1 yoctoNEAR",
            ExchangeError::NotStablePool => "E88: not stable pool",
            ExchangeError::IllegalFee => "E101: illegal fee",
            ExchangeError::InvalidRegister => "E110: Invalid register",
            ExchangeError::InvalidUnregister => "E111: Invalid unregister",
            ExchangeError::WrongMsgFormat => "E28: Illegal msg in ft_transfer_call",
            ExchangeError::ZeroTransferAmount => "transfer_amount must be greater than zero",
            ExchangeError::ZeroShadowAmount => "amount must be greater than zero",
            ExchangeError::ShadowAmountTooLarge { .. } => "amount must be less than or equal to the shares available",
            ExchangeError::NotEnoughShadowShares => "not enough shares cast",
            ExchangeError::NotEnoughFreeShares => "Not enough free shares",
            ExchangeError::OneOutTokenOnly => "Invalid actions, only one out token is allowed",
            ExchangeError::NeedMinAmounts => "Need input min_amounts",
            ExchangeError::NeedMinShares => "Need input min_shares",
            ExchangeError::EmptyHotZap => "hot zap needs actions and liquidity to add",
            ExchangeError::InvalidPythPrice => "Invalid pyth price",
            ExchangeError::PythPriceStale => "Pyth price publish_time is too stale",
            ExchangeError::DegenNotPriced => "degen token is not price",
            ExchangeError::InvalidAmount => "Invalid amount",
            ExchangeError::InvalidTokenId => "Invalid token_id",
            ExchangeError::DepositLessThanMinStorage => "E17: deposit less than min storage",
            ExchangeError::StorageDepositShort => "ERR_STORAGE_DEPOSIT: attached deposit does not cover the storage taken",
            ExchangeError::InvalidRateType => "E127: Invalid rate type",
            ExchangeError::LostfoundNotWhitelisted => "ERR: non-whitelisted token can NOT deposit into lost-found.",
        }
    }
}

} // verus!
