use vstd::prelude::*;
use crate::error_map::ErrorMap;
use crate::value::Principal;

verus! {

/// Error codes of `nft-mint?`.
#[allow(non_camel_case_types)]
#[derive(Debug, Clone, Copy, PartialEq, Eq, Structural)]
pub enum MintAssetErrorCodes {
    ALREADY_EXIST,
}

/// Error codes of `ft-mint?`.
#[allow(non_camel_case_types)]
#[derive(Debug, Clone, Copy, PartialEq, Eq, Structural)]
pub enum MintTokenErrorCodes {
    NON_POSITIVE_AMOUNT,
}

/// Error codes of `nft-transfer?`.
#[allow(non_camel_case_types)]
#[derive(Debug, Clone, Copy, PartialEq, Eq, Structural)]
pub enum TransferAssetErrorCodes {
    NOT_OWNED_BY,
    SENDER_IS_RECIPIENT,
    DOES_NOT_EXIST,
}

/// Error codes of `ft-transfer?`.
#[allow(non_camel_case_types)]
#[derive(Debug, Clone, Copy, PartialEq, Eq, Structural)]
pub enum TransferTokenErrorCodes {
    NOT_ENOUGH_BALANCE,
    SENDER_IS_RECIPIENT,
    NON_POSITIVE_AMOUNT,
}

/// Error codes of `nft-burn?`.
#[allow(non_camel_case_types)]
#[derive(Debug, Clone, Copy, PartialEq, Eq, Structural)]
pub enum BurnAssetErrorCodes {
    NOT_OWNED_BY,
    DOES_NOT_EXIST,
}

/// Error codes of `ft-burn?`.
#[allow(non_camel_case_types)]
#[derive(Debug, Clone, Copy, PartialEq, Eq, Structural)]
pub enum BurnTokenErrorCodes {
    NOT_ENOUGH_BALANCE_OR_NON_POSITIVE,
}

/// Error codes of the STX operations.
#[allow(non_camel_case_types)]
#[derive(Debug, Clone, Copy, PartialEq, Eq, Structural)]
pub enum StxErrorCodes {
    NOT_ENOUGH_BALANCE,
    SENDER_IS_RECIPIENT,
    NON_POSITIVE_AMOUNT,
    SENDER_IS_NOT_TX_SENDER,
}

impl MintAssetErrorCodes {
    /// The unsigned integer carried by the err response.
    pub fn code(&self) -> (r: u128)
        ensures
            r == 1,
    {
        1
    }
}

impl MintTokenErrorCodes {
    pub fn code(&self) -> (r: u128)
        ensures
            r == 1,
    {
        1
    }
}

impl TransferAssetErrorCodes {
    pub fn code(&self) -> (r: u128)
        ensures
            r == match *self {
                TransferAssetErrorCodes::NOT_OWNED_BY => 1u128,
                TransferAssetErrorCodes::SENDER_IS_RECIPIENT => 2u128,
                TransferAssetErrorCodes::DOES_NOT_EXIST => 3u128,
            },
    {
        match self {
            TransferAssetErrorCodes::NOT_OWNED_BY => 1,
            TransferAssetErrorCodes::SENDER_IS_RECIPIENT => 2,
            TransferAssetErrorCodes::DOES_NOT_EXIST => 3,
        }
    }
}

impl TransferTokenErrorCodes {
    pub fn code(&self) -> (r: u128)
        ensures
            r == match *self {
                TransferTokenErrorCodes::NOT_ENOUGH_BALANCE => 1u128,
                TransferTokenErrorCodes::SENDER_IS_RECIPIENT => 2u128,
                TransferTokenErrorCodes::NON_POSITIVE_AMOUNT => 3u128,
            },
    {
        match self {
            TransferTokenErrorCodes::NOT_ENOUGH_BALANCE => 1,
            TransferTokenErrorCodes::SENDER_IS_RECIPIENT => 2,
            TransferTokenErrorCodes::NON_POSITIVE_AMOUNT => 3,
        }
    }
}

impl BurnAssetErrorCodes {
    pub fn code(&self) -> (r: u128)
        ensures
            r == match *self {
                BurnAssetErrorCodes::NOT_OWNED_BY => 1u128,
                BurnAssetErrorCodes::DOES_NOT_EXIST => 3u128,
            },
    {
        match self {
            BurnAssetErrorCodes::NOT_OWNED_BY => 1,
            BurnAssetErrorCodes::DOES_NOT_EXIST => 3,
        }
    }
}

impl BurnTokenErrorCodes {
    pub fn code(&self) -> (r: u128)
        ensures
            r == 1,
    {
        1
    }
}

impl StxErrorCodes {
    pub fn code(&self) -> (r: u128)
        ensures
            r == match *self {
                StxErrorCodes::NOT_ENOUGH_BALANCE => 1u128,
                StxErrorCodes::SENDER_IS_RECIPIENT => 2u128,
                StxErrorCodes::NON_POSITIVE_AMOUNT => 3u128,
                StxErrorCodes::SENDER_IS_NOT_TX_SENDER => 4u128,
            },
    {
        match self {
            StxErrorCodes::NOT_ENOUGH_BALANCE => 1,
            StxErrorCodes::SENDER_IS_RECIPIENT => 2,
            StxErrorCodes::NON_POSITIVE_AMOUNT => 3,
            StxErrorCodes::SENDER_IS_NOT_TX_SENDER => 4,
        }
    }
}

/// `stx-burn?`: burns `amount` from `sender`, which must be the transaction
/// sender. Returns the sender's new balance.
#[derive(Debug)]
pub struct StxBurn;

impl StxBurn {
    pub fn name(&self) -> (r: &'static str)
        ensures
            r == "stx-burn?",
    {
        "stx-burn?"
    }

    pub fn eval(&self, amount: u128, sender: &Principal, tx_sender: &Principal, balance: u128) -> (r:
        Result<u128, StxErrorCodes>)
        ensures
            amount == 0 ==> r == Err::<u128, StxErrorCodes>(StxErrorCodes::NON_POSITIVE_AMOUNT),
            amount > 0 && sender@ != tx_sender@ ==> r == Err::<u128, StxErrorCodes>(
                StxErrorCodes::SENDER_IS_NOT_TX_SENDER,
            ),
            amount > 0 && sender@ == tx_sender@ && balance < amount ==> r == Err::<
                u128,
                StxErrorCodes,
            >(StxErrorCodes::NOT_ENOUGH_BALANCE),
            amount > 0 && sender@ == tx_sender@ && balance >= amount ==> r == Ok::<
                u128,
                StxErrorCodes,
            >((balance - amount) as u128),
    {
        if amount == 0 {
            Err(StxErrorCodes::NON_POSITIVE_AMOUNT)
        } else if !sender.same_as(tx_sender) {
            Err(StxErrorCodes::SENDER_IS_NOT_TX_SENDER)
        } else if balance < amount {
            Err(StxErrorCodes::NOT_ENOUGH_BALANCE)
        } else {
            Ok(balance - amount)
        }
    }
}

/// The checks and balance moves shared by `stx-transfer?` and
/// `stx-transfer-memo?`. Returns the new balances of sender and recipient.
pub open spec fn stx_transfer_spec(
    amount: u128,
    same_parties: bool,
    sender_is_tx_sender: bool,
    sender_balance: u128,
    recipient_balance: u128,
) -> Result<(u128, u128), StxErrorCodes> {
    if amount == 0 {
        Err(StxErrorCodes::NON_POSITIVE_AMOUNT)
    } else if same_parties {
        Err(StxErrorCodes::SENDER_IS_RECIPIENT)
    } else if !sender_is_tx_sender {
        Err(StxErrorCodes::SENDER_IS_NOT_TX_SENDER)
    } else if sender_balance < amount {
        Err(StxErrorCodes::NOT_ENOUGH_BALANCE)
    } else {
        Ok(((sender_balance - amount) as u128, (recipient_balance + amount) as u128))
    }
}

fn stx_transfer(
    amount: u128,
    sender: &Principal,
    recipient: &Principal,
    tx_sender: &Principal,
    sender_balance: u128,
    recipient_balance: u128,
) -> (r: Result<(u128, u128), StxErrorCodes>)
    requires
        recipient_balance + amount <= u128::MAX,
    ensures
        r == stx_transfer_spec(
            amount,
            sender@ == recipient@,
            sender@ == tx_sender@,
            sender_balance,
            recipient_balance,
        ),
{
    if amount == 0 {
        Err(StxErrorCodes::NON_POSITIVE_AMOUNT)
    } else if sender.same_as(recipient) {
        Err(StxErrorCodes::SENDER_IS_RECIPIENT)
    } else if !sender.same_as(tx_sender) {
        Err(StxErrorCodes::SENDER_IS_NOT_TX_SENDER)
    } else if sender_balance < amount {
        Err(StxErrorCodes::NOT_ENOUGH_BALANCE)
    } else {
        Ok((sender_balance - amount, recipient_balance + amount))
    }
}

/// `stx-transfer?`: moves `amount` from `sender` to `recipient`.
#[derive(Debug)]
pub struct StxTransfer;

impl StxTransfer {
    pub fn name(&self) -> (r: &'static str)
        ensures
            r == "stx-transfer?",
    {
        "stx-transfer?"
    }

    /// The total supply fits `u128`, so no credit can overflow.
    pub fn eval(
        &self,
        amount: u128,
        sender: &Principal,
        recipient: &Principal,
        tx_sender: &Principal,
        sender_balance: u128,
        recipient_balance: u128,
    ) -> (r: Result<(u128, u128), StxErrorCodes>)
        requires
            recipient_balance + amount <= u128::MAX,
        ensures
            r == stx_transfer_spec(
                amount,
                sender@ == recipient@,
                sender@ == tx_sender@,
                sender_balance,
                recipient_balance,
            ),
    {
        stx_transfer(amount, sender, recipient, tx_sender, sender_balance, recipient_balance)
    }
}

/// `stx-transfer-memo?`: `stx-transfer?` that also carries a memo buffer.
#[derive(Debug)]
pub struct StxTransferMemo;

impl StxTransferMemo {
    pub fn name(&self) -> (r: &'static str)
        ensures
            r == "stx-transfer-memo?",
    {
        "stx-transfer-memo?"
    }

    pub fn eval(
        &self,
        amount: u128,
        sender: &Principal,
        recipient: &Principal,
        tx_sender: &Principal,
        memo: &Vec<u8>,
        sender_balance: u128,
        recipient_balance: u128,
    ) -> (r: Result<(u128, u128), StxErrorCodes>)
        requires
            recipient_balance + amount <= u128::MAX,
        ensures
            r == stx_transfer_spec(
                amount,
                sender@ == recipient@,
                sender@ == tx_sender@,
                sender_balance,
                recipient_balance,
            ),
    {
        stx_transfer(amount, sender, recipient, tx_sender, sender_balance, recipient_balance)
    }
}

/// `stx-get-balance`: reads an account's balance from the host.
#[derive(Debug)]
pub struct StxGetBalance;

impl StxGetBalance {
    pub fn name(&self) -> (r: &'static str)
        ensures
            r == "stx-get-balance",
    {
        "stx-get-balance"
    }
}

/// `stx-account`: reads an account's locked and unlocked amounts from the host.
#[derive(Debug)]
pub struct StxGetAccount;

impl StxGetAccount {
    pub fn name(&self) -> (r: &'static str)
        ensures
            r == "stx-account",
    {
        "stx-account"
    }
}

/// `define-fungible-token`: declares a token, optionally with a supply cap.
#[derive(Debug)]
pub struct DefineFungibleToken;

impl DefineFungibleToken {
    pub fn name(&self) -> (r: &'static str)
        ensures
            r == "define-fungible-token",
    {
        "define-fungible-token"
    }
}

/// `ft-mint?`: creates `amount` new tokens for the recipient. Returns the new
/// supply and the recipient's new balance; exceeding the cap or `u128` traps.
#[derive(Debug)]
pub struct MintFungibleToken;

impl MintFungibleToken {
    pub fn name(&self) -> (r: &'static str)
        ensures
            r == "ft-mint?",
    {
        "ft-mint?"
    }

    pub fn eval(&self, amount: u128, supply: u128, max_supply: Option<u128>, balance: u128) -> (r:
        Result<Result<(u128, u128), MintTokenErrorCodes>, ErrorMap>)
        ensures
            amount == 0 ==> r == Ok::<Result<(u128, u128), MintTokenErrorCodes>, ErrorMap>(
                Err(MintTokenErrorCodes::NON_POSITIVE_AMOUNT),
            ),
            amount > 0 && (supply + amount > u128::MAX || (max_supply is Some && supply + amount
                > max_supply->Some_0) || balance + amount > u128::MAX) ==> r == Err::<
                Result<(u128, u128), MintTokenErrorCodes>,
                ErrorMap,
            >(ErrorMap::ArithmeticOverflow),
            amount > 0 && supply + amount <= u128::MAX && !(max_supply is Some && supply + amount
                > max_supply->Some_0) && balance + amount <= u128::MAX ==> r == Ok::<
                Result<(u128, u128), MintTokenErrorCodes>,
                ErrorMap,
            >(Ok(((supply + amount) as u128, (balance + amount) as u128))),
    {
        if amount == 0 {
            return Ok(Err(MintTokenErrorCodes::NON_POSITIVE_AMOUNT));
        }
        if amount > u128::MAX - supply {
            return Err(ErrorMap::ArithmeticOverflow);
        }
        let new_supply = supply + amount;
        match max_supply {
            Some(m) => {
                if new_supply > m {
                    return Err(ErrorMap::ArithmeticOverflow);
                }
            },
            None => {},
        }
        if amount > u128::MAX - balance {
            return Err(ErrorMap::ArithmeticOverflow);
        }
        Ok(Ok((new_supply, balance + amount)))
    }
}

/// `ft-transfer?`: moves tokens between two holders. Returns their new balances.
#[derive(Debug)]
pub struct TransferFungibleToken;

impl TransferFungibleToken {
    pub fn name(&self) -> (r: &'static str)
        ensures
            r == "ft-transfer?",
    {
        "ft-transfer?"
    }

    pub fn eval(
        &self,
        amount: u128,
        sender: &Principal,
        recipient: &Principal,
        sender_balance: u128,
        recipient_balance: u128,
    ) -> (r: Result<Result<(u128, u128), TransferTokenErrorCodes>, ErrorMap>)
        ensures
            r == (if amount == 0 {
                Ok(Err(TransferTokenErrorCodes::NON_POSITIVE_AMOUNT))
            } else if sender@ == recipient@ {
                Ok(Err(TransferTokenErrorCodes::SENDER_IS_RECIPIENT))
            } else if sender_balance < amount {
                Ok(Err(TransferTokenErrorCodes::NOT_ENOUGH_BALANCE))
            } else if recipient_balance + amount > u128::MAX {
                Err(ErrorMap::ArithmeticOverflow)
            } else {
                Ok(Ok(((sender_balance - amount) as u128, (recipient_balance + amount) as u128)))
            }),
    {
        if amount == 0 {
            Ok(Err(TransferTokenErrorCodes::NON_POSITIVE_AMOUNT))
        } else if sender.same_as(recipient) {
            Ok(Err(TransferTokenErrorCodes::SENDER_IS_RECIPIENT))
        } else if sender_balance < amount {
            Ok(Err(TransferTokenErrorCodes::NOT_ENOUGH_BALANCE))
        } else if amount > u128::MAX - recipient_balance {
            Err(ErrorMap::ArithmeticOverflow)
        } else {
            Ok(Ok((sender_balance - amount, recipient_balance + amount)))
        }
    }
}

/// `ft-burn?`: destroys tokens of a holder. Returns the new supply and balance.
#[derive(Debug)]
pub struct BurnFungibleToken;

impl BurnFungibleToken {
    pub fn name(&self) -> (r: &'static str)
        ensures
            r == "ft-burn?",
    {
        "ft-burn?"
    }

    pub fn eval(&self, amount: u128, supply: u128, balance: u128) -> (r: Result<
        Result<(u128, u128), BurnTokenErrorCodes>,
        ErrorMap,
    >)
        ensures
            r == (if amount == 0 || balance < amount {
                Ok(Err(BurnTokenErrorCodes::NOT_ENOUGH_BALANCE_OR_NON_POSITIVE))
            } else if supply < amount {
                Err(ErrorMap::ArithmeticUnderflow)
            } else {
                Ok(Ok(((supply - amount) as u128, (balance - amount) as u128)))
            }),
    {
        if amount == 0 || balance < amount {
            Ok(Err(BurnTokenErrorCodes::NOT_ENOUGH_BALANCE_OR_NON_POSITIVE))
        } else if supply < amount {
            Err(ErrorMap::ArithmeticUnderflow)
        } else {
            Ok(Ok((supply - amount, balance - amount)))
        }
    }
}

/// `ft-get-supply`: reads a token's supply from the host.
#[derive(Debug)]
pub struct GetSupplyOfFungibleToken;

impl GetSupplyOfFungibleToken {
    pub fn name(&self) -> (r: &'static str)
        ensures
            r == "ft-get-supply",
    {
        "ft-get-supply"
    }
}

/// `ft-get-balance`: reads a holder's balance of a token from the host.
#[derive(Debug)]
pub struct GetBalanceOfFungibleToken;

impl GetBalanceOfFungibleToken {
    pub fn name(&self) -> (r: &'static str)
        ensures
            r == "ft-get-balance",
    {
        "ft-get-balance"
    }
}

/// `define-non-fungible-token`: declares an asset class and its identifier type.
#[derive(Debug)]
pub struct DefineNonFungibleToken;

impl DefineNonFungibleToken {
    pub fn name(&self) -> (r: &'static str)
        ensures
            r == "define-non-fungible-token",
    {
        "define-non-fungible-token"
    }
}

/// `nft-mint?`: gives an asset that nobody owns to the recipient.
#[derive(Debug)]
pub struct MintNonFungibleToken;

impl MintNonFungibleToken {
    pub fn name(&self) -> (r: &'static str)
        ensures
            r == "nft-mint?",
    {
        "nft-mint?"
    }

    /// `owner` is the asset's current owner; on success the recipient owns it.
    pub fn eval(&self, owner: &Option<Principal>) -> (r: Result<(), MintAssetErrorCodes>)
        ensures
            r == (if owner is Some {
                Err(MintAssetErrorCodes::ALREADY_EXIST)
            } else {
                Ok(())
            }),
    {
        match owner {
            Some(_) => Err(MintAssetErrorCodes::ALREADY_EXIST),
            None => Ok(()),
        }
    }
}

/// `nft-transfer?`: hands an asset from its owner to a recipient.
#[derive(Debug)]
pub struct TransferNonFungibleToken;

impl TransferNonFungibleToken {
    pub fn name(&self) -> (r: &'static str)
        ensures
            r == "nft-transfer?",
    {
        "nft-transfer?"
    }

    pub fn eval(&self, owner: &Option<Principal>, sender: &Principal, recipient: &Principal) -> (r:
        Result<(), TransferAssetErrorCodes>)
        ensures
            r == (if sender@ == recipient@ {
                Err(TransferAssetErrorCodes::SENDER_IS_RECIPIENT)
            } else if owner is None {
                Err(TransferAssetErrorCodes::DOES_NOT_EXIST)
            } else if owner->Some_0@ != sender@ {
                Err(TransferAssetErrorCodes::NOT_OWNED_BY)
            } else {
                Ok(())
            }),
    {
        if sender.same_as(recipient) {
            return Err(TransferAssetErrorCodes::SENDER_IS_RECIPIENT);
        }
        match owner {
            None => Err(TransferAssetErrorCodes::DOES_NOT_EXIST),
            Some(o) => if o.same_as(sender) {
                Ok(())
            } else {
                Err(TransferAssetErrorCodes::NOT_OWNED_BY)
            },
        }
    }
}

/// `nft-burn?`: destroys an asset held by the sender.
#[derive(Debug)]
pub struct BurnNonFungibleToken;

impl BurnNonFungibleToken {
    pub fn name(&self) -> (r: &'static str)
        ensures
            r == "nft-burn?",
    {
        "nft-burn?"
    }

    pub fn eval(&self, owner: &Option<Principal>, sender: &Principal) -> (r: Result<
        (),
        BurnAssetErrorCodes,
    >)
        ensures
            r == (if owner is None {
                Err(BurnAssetErrorCodes::DOES_NOT_EXIST)
            } else if owner->Some_0@ != sender@ {
                Err(BurnAssetErrorCodes::NOT_OWNED_BY)
            } else {
                Ok(())
            }),
    {
        match owner {
            None => Err(BurnAssetErrorCodes::DOES_NOT_EXIST),
            Some(o) => if o.same_as(sender) {
                Ok(())
            } else {
                Err(BurnAssetErrorCodes::NOT_OWNED_BY)
            },
        }
    }
}

/// `nft-get-owner?`: reads an asset's owner from the host.
#[derive(Debug)]
pub struct GetOwnerOfNonFungibleToken;

impl GetOwnerOfNonFungibleToken {
    pub fn name(&self) -> (r: &'static str)
        ensures
            r == "nft-get-owner?",
    {
        "nft-get-owner?"
    }
}

} // verus!
