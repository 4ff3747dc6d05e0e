//! The wire form of shadow transactions.
//!
//! An operation is one type byte followed by its fields as a list. A shadow
//! transaction is the list of its identifier, its address and its
//! operation. A block's shadow transactions are the list of them. `Diff`
//! has no wire form.

use vstd::prelude::*;
use crate::address::Address;
use crate::big_endian::pow256;
use crate::pledge::TxId;
use crate::rlp::{
    decode_fixed, decode_list_header, decode_u64, decode_uint256, encode_bytes, encode_header,
    encode_u64, encode_uint256, header_length, lemma_decode_fixed_of_encoding,
    lemma_decode_list_header_of_encoding, lemma_decode_u64_of_encoding,
    lemma_decode_uint256_of_encoding, lemma_decoded_list_header_is_canonical,
    lemma_decoded_number_is_canonical, lemma_decoded_string_is_canonical, length_limit,
    spec_decode_fixed, spec_decode_list_header,
    spec_decode_u64, spec_decode_uint256, spec_encode_bytes, spec_encode_list, spec_encode_uint,
    spec_header, u64_length, uint256_length, DecodeError,
};
use crate::fixed_bytes::slice_from;
use crate::shadow::{
    shadow_views, DataShadow, DataShadowView, MiningAddressPledgeShadow,
    MiningAddressPledgeShadowView, PartitionPledgeShadow, PartitionPledgeShadowView,
    PartitionUnPledgeShadow, PartitionUnPledgeShadowView, ShadowTx, ShadowTxType,
    ShadowTxTypeId, ShadowTxTypeIdDecodeError, ShadowTxTypeView, ShadowTxView, Shadows,
    SlashShadow, SlashShadowView, TransferShadow, TransferShadowView, UnpledgeAllShadow,
};

verus! {

/// What the decoder makes of a list whose fields took `consumed` bytes:
/// the value, if the fields fill the list's payload exactly.
pub open spec fn spec_finish_list<T>(
    value: T,
    consumed: nat,
    payload_length: nat,
    header_length: nat,
) -> Result<(T, nat), DecodeError> {
    if consumed != payload_length {
        Err(DecodeError::ListLengthMismatch)
    } else {
        Ok((value, header_length + payload_length))
    }
}

impl TransferShadowView {
    /// Whether the values are those of some `TransferShadow`.
    pub open spec fn valid(self) -> bool {
        self.to.len() == 20 && self.amount < pow256(32)
    }

    /// The fields, encoded one after the other.
    pub open spec fn spec_payload(self) -> Seq<u8> {
        spec_encode_bytes(self.to) + spec_encode_uint(self.amount)
    }

    /// The wire form: the list of `to` and `amount`.
    pub open spec fn spec_encode(self) -> Seq<u8> {
        spec_encode_list(self.spec_payload())
    }

    /// The value at the front of `s` and the number of bytes that it takes,
    /// or why there is none.
    #[verifier::opaque]
    pub open spec fn spec_decode(s: Seq<u8>) -> Result<(TransferShadowView, nat), DecodeError> {
        match spec_decode_list_header(s) {
            Err(e) => Err(e),
            Ok((payload_length, header_length)) => {
                let body = s.skip(header_length as int);
                match spec_decode_fixed(body, 20) {
                    Err(e) => Err(e),
                    Ok((to, n1)) => match spec_decode_uint256(body.skip(n1 as int)) {
                        Err(e) => Err(e),
                        Ok((amount, n2)) => spec_finish_list(
                            TransferShadowView { to, amount },
                            n1 + n2,
                            payload_length,
                            header_length,
                        ),
                    },
                }
            },
        }
    }

    /// A value is read back from its wire form, whatever follows.
    pub proof fn lemma_round_trip(self, rest: Seq<u8>)
        requires
            self.valid(),
        ensures
            Self::spec_decode(self.spec_encode() + rest) == Ok::<
                (TransferShadowView, nat),
                DecodeError,
            >((self, self.spec_encode().len())),
            self.spec_encode().len() <= 55,
    {
        reveal(TransferShadowView::spec_decode);
        let f1 = spec_encode_bytes(self.to);
        let f2 = spec_encode_uint(self.amount);
        let payload = self.spec_payload();
        lemma_decode_uint256_of_encoding(self.amount, rest);
        lemma_decode_fixed_of_encoding(self.to, f2 + rest);
        lemma_decode_list_header_of_encoding(payload, rest);
        assert(payload + rest =~= f1 + (f2 + rest));
    }

    /// A value that the decoder accepts lies within the input, and takes at
    /// least one byte.
    pub proof fn lemma_decode_fits(s: Seq<u8>)
        ensures
            Self::spec_decode(s) matches Ok((value, consumed)) ==> 1 <= consumed <= s.len(),
    {
        reveal(TransferShadowView::spec_decode);
        crate::rlp::lemma_header_fits(s);
    }

    /// A value that the decoder accepts is written in the one form that the
    /// encoder produces: the bytes that it takes are the value's wire form.
    pub proof fn lemma_decoded_is_canonical(s: Seq<u8>)
        ensures
            Self::spec_decode(s) matches Ok((value, consumed)) ==> value.valid() && s.take(
                consumed as int,
            ) == value.spec_encode(),
    {
        reveal(TransferShadowView::spec_decode);
        lemma_decoded_list_header_is_canonical(s);
        if let Ok((value, consumed)) = Self::spec_decode(s) {
            let header_length = spec_decode_list_header(s)->Ok_0.1;
            let body = s.skip(header_length as int);
            lemma_decoded_string_is_canonical(body);
            let n1 = spec_decode_fixed(body, 20)->Ok_0.1;
            let after_to = body.skip(n1 as int);
            lemma_decoded_number_is_canonical(after_to);
            let n2 = spec_decode_uint256(after_to)->Ok_0.1;
            assert(s.take(consumed as int) =~= s.take(header_length as int) + body.take(
                n1 as int,
            ) + after_to.take(n2 as int));
        }
    }
}

impl TransferShadow {
    /// The view of every value is valid.
    pub proof fn lemma_view_valid(self)
        ensures
            self@.valid(),
    {
        self.amount.lemma_below_limit();
    }

    /// The number of bytes of the fields' encodings.
    fn payload_length(&self) -> (r: usize)
        ensures
            r == self@.spec_payload().len(),
            r <= 54,
    {
        21 + uint256_length(&self.amount)
    }

    /// The number of bytes of the wire form.
    pub fn length(&self) -> (r: usize)
        ensures
            r == self@.spec_encode().len(),
            r <= 55,
    {
        let n = self.payload_length();
        header_length(n) + n
    }

    /// Appends the wire form.
    pub fn encode(&self, out: &mut Vec<u8>)
        ensures
            final(out)@ == old(out)@ + self@.spec_encode(),
    {
        encode_header(out, true, self.payload_length());
        encode_bytes(out, self.to.as_slice());
        encode_uint256(out, &self.amount);
        proof {
            assert(out@ =~= old(out)@ + self@.spec_encode());
        }
    }

    /// Reads a value from the front of `buf`. Returns it with the bytes
    /// that follow it.
    pub fn decode<'a>(buf: &'a [u8]) -> (r: Result<(Self, &'a [u8]), DecodeError>)
        ensures
            match TransferShadowView::spec_decode(buf@) {
                Ok((value, consumed)) => r matches Ok((x, rest)) && x@ == value && rest@
                    == buf@.skip(consumed as int) && 1 <= consumed <= buf@.len(),
                Err(e) => r == Err::<(Self, &[u8]), DecodeError>(e),
            },
    {
        proof {
            reveal(TransferShadowView::spec_decode);
        }
        let (payload_length, body) = match decode_list_header(buf) {
            Ok(found) => found,
            Err(e) => {
                return Err(e);
            },
        };
        let (to, after_to) = match decode_fixed::<20>(body) {
            Ok(found) => found,
            Err(e) => {
                return Err(e);
            },
        };
        let (amount, rest) = match decode_uint256(after_to) {
            Ok(found) => found,
            Err(e) => {
                return Err(e);
            },
        };
        proof {
            crate::rlp::lemma_header_fits(buf@);
            crate::rlp::lemma_string_fits(body@);
            crate::rlp::lemma_string_fits(after_to@);
        }
        if body.len() - rest.len() != payload_length {
            return Err(DecodeError::ListLengthMismatch);
        }
        proof {
            assert(rest@ =~= buf@.skip((buf@.len() - rest@.len()) as int));
        }
        Ok((TransferShadow { to: Address(to), amount }, rest))
    }
}

impl DataShadowView {
    /// Whether the values are those of some `DataShadow`.
    pub open spec fn valid(self) -> bool {
        self.fee < pow256(32)
    }

    /// The fields, encoded one after the other.
    pub open spec fn spec_payload(self) -> Seq<u8> {
        spec_encode_uint(self.fee)
    }

    /// The wire form: the list that holds `fee`.
    pub open spec fn spec_encode(self) -> Seq<u8> {
        spec_encode_list(self.spec_payload())
    }

    /// The value at the front of `s` and the number of bytes that it takes,
    /// or why there is none.
    #[verifier::opaque]
    pub open spec fn spec_decode(s: Seq<u8>) -> Result<(DataShadowView, nat), DecodeError> {
        match spec_decode_list_header(s) {
            Err(e) => Err(e),
            Ok((payload_length, header_length)) => {
                let body = s.skip(header_length as int);
                match spec_decode_uint256(body) {
                    Err(e) => Err(e),
                    Ok((fee, n1)) => spec_finish_list(
                        DataShadowView { fee },
                        n1,
                        payload_length,
                        header_length,
                    ),
                }
            },
        }
    }

    /// A value is read back from its wire form, whatever follows.
    pub proof fn lemma_round_trip(self, rest: Seq<u8>)
        requires
            self.valid(),
        ensures
            Self::spec_decode(self.spec_encode() + rest) == Ok::<
                (DataShadowView, nat),
                DecodeError,
            >((self, self.spec_encode().len())),
            self.spec_encode().len() <= 34,
    {
        reveal(DataShadowView::spec_decode);
        let f1 = spec_encode_uint(self.fee);
        let payload = self.spec_payload();
        lemma_decode_uint256_of_encoding(self.fee, rest);
        lemma_decode_list_header_of_encoding(payload, rest);

    }

    /// A value that the decoder accepts lies within the input, and takes at
    /// least one byte.
    pub proof fn lemma_decode_fits(s: Seq<u8>)
        ensures
            Self::spec_decode(s) matches Ok((value, consumed)) ==> 1 <= consumed <= s.len(),
    {
        reveal(DataShadowView::spec_decode);
        crate::rlp::lemma_header_fits(s);
    }

    /// A value that the decoder accepts is written in the one form that the
    /// encoder produces: the bytes that it takes are the value's wire form.
    pub proof fn lemma_decoded_is_canonical(s: Seq<u8>)
        ensures
            Self::spec_decode(s) matches Ok((value, consumed)) ==> value.valid() && s.take(
                consumed as int,
            ) == value.spec_encode(),
    {
        reveal(DataShadowView::spec_decode);
        lemma_decoded_list_header_is_canonical(s);
        if let Ok((value, consumed)) = Self::spec_decode(s) {
            let header_length = spec_decode_list_header(s)->Ok_0.1;
            let body = s.skip(header_length as int);
            lemma_decoded_number_is_canonical(body);
            let n1 = spec_decode_uint256(body)->Ok_0.1;
            assert(s.take(consumed as int) =~= s.take(header_length as int) + body.take(n1 as int));
        }
    }
}

impl DataShadow {
    /// The view of every value is valid.
    pub proof fn lemma_view_valid(self)
        ensures
            self@.valid(),
    {
        self.fee.lemma_below_limit();
    }

    /// The number of bytes of the fields' encodings.
    fn payload_length(&self) -> (r: usize)
        ensures
            r == self@.spec_payload().len(),
            r <= 33,
    {
        uint256_length(&self.fee)
    }

    /// The number of bytes of the wire form.
    pub fn length(&self) -> (r: usize)
        ensures
            r == self@.spec_encode().len(),
            r <= 34,
    {
        let n = self.payload_length();
        header_length(n) + n
    }

    /// Appends the wire form.
    pub fn encode(&self, out: &mut Vec<u8>)
        ensures
            final(out)@ == old(out)@ + self@.spec_encode(),
    {
        encode_header(out, true, self.payload_length());
        encode_uint256(out, &self.fee);
        proof {
            assert(out@ =~= old(out)@ + self@.spec_encode());
        }
    }

    /// Reads a value from the front of `buf`. Returns it with the bytes
    /// that follow it.
    pub fn decode<'a>(buf: &'a [u8]) -> (r: Result<(Self, &'a [u8]), DecodeError>)
        ensures
            match DataShadowView::spec_decode(buf@) {
                Ok((value, consumed)) => r matches Ok((x, rest)) && x@ == value && rest@
                    == buf@.skip(consumed as int) && 1 <= consumed <= buf@.len(),
                Err(e) => r == Err::<(Self, &[u8]), DecodeError>(e),
            },
    {
        proof {
            reveal(DataShadowView::spec_decode);
        }
        let (payload_length, body) = match decode_list_header(buf) {
            Ok(found) => found,
            Err(e) => {
                return Err(e);
            },
        };
        let (fee, rest) = match decode_uint256(body) {
            Ok(found) => found,
            Err(e) => {
                return Err(e);
            },
        };
        proof {
            crate::rlp::lemma_header_fits(buf@);
            crate::rlp::lemma_string_fits(body@);
        }
        if body.len() - rest.len() != payload_length {
            return Err(DecodeError::ListLengthMismatch);
        }
        proof {
            assert(rest@ =~= buf@.skip((buf@.len() - rest@.len()) as int));
        }
        Ok((DataShadow { fee }, rest))
    }
}

impl MiningAddressPledgeShadowView {
    /// Whether the values are those of some `MiningAddressPledgeShadow`.
    pub open spec fn valid(self) -> bool {
        self.value < pow256(32)
    }

    /// The fields, encoded one after the other.
    pub open spec fn spec_payload(self) -> Seq<u8> {
        spec_encode_uint(self.value)
    }

    /// The wire form: the list that holds `value`.
    pub open spec fn spec_encode(self) -> Seq<u8> {
        spec_encode_list(self.spec_payload())
    }

    /// The value at the front of `s` and the number of bytes that it takes,
    /// or why there is none.
    #[verifier::opaque]
    pub open spec fn spec_decode(s: Seq<u8>) -> Result<
        (MiningAddressPledgeShadowView, nat),
        DecodeError,
    > {
        match spec_decode_list_header(s) {
            Err(e) => Err(e),
            Ok((payload_length, header_length)) => {
                let body = s.skip(header_length as int);
                match spec_decode_uint256(body) {
                    Err(e) => Err(e),
                    Ok((value, n1)) => spec_finish_list(
                        MiningAddressPledgeShadowView { value },
                        n1,
                        payload_length,
                        header_length,
                    ),
                }
            },
        }
    }

    /// A value is read back from its wire form, whatever follows.
    pub proof fn lemma_round_trip(self, rest: Seq<u8>)
        requires
            self.valid(),
        ensures
            Self::spec_decode(self.spec_encode() + rest) == Ok::<
                (MiningAddressPledgeShadowView, nat),
                DecodeError,
            >((self, self.spec_encode().len())),
            self.spec_encode().len() <= 34,
    {
        reveal(MiningAddressPledgeShadowView::spec_decode);
        let f1 = spec_encode_uint(self.value);
        let payload = self.spec_payload();
        lemma_decode_uint256_of_encoding(self.value, rest);
        lemma_decode_list_header_of_encoding(payload, rest);

    }

    /// A value that the decoder accepts lies within the input, and takes at
    /// least one byte.
    pub proof fn lemma_decode_fits(s: Seq<u8>)
        ensures
            Self::spec_decode(s) matches Ok((value, consumed)) ==> 1 <= consumed <= s.len(),
    {
        reveal(MiningAddressPledgeShadowView::spec_decode);
        crate::rlp::lemma_header_fits(s);
    }

    /// A value that the decoder accepts is written in the one form that the
    /// encoder produces: the bytes that it takes are the value's wire form.
    pub proof fn lemma_decoded_is_canonical(s: Seq<u8>)
        ensures
            Self::spec_decode(s) matches Ok((value, consumed)) ==> value.valid() && s.take(
                consumed as int,
            ) == value.spec_encode(),
    {
        reveal(MiningAddressPledgeShadowView::spec_decode);
        lemma_decoded_list_header_is_canonical(s);
        if let Ok((value, consumed)) = Self::spec_decode(s) {
            let header_length = spec_decode_list_header(s)->Ok_0.1;
            let body = s.skip(header_length as int);
            lemma_decoded_number_is_canonical(body);
            let n1 = spec_decode_uint256(body)->Ok_0.1;
            assert(s.take(consumed as int) =~= s.take(header_length as int) + body.take(n1 as int));
        }
    }
}

impl MiningAddressPledgeShadow {
    /// The view of every value is valid.
    pub proof fn lemma_view_valid(self)
        ensures
            self@.valid(),
    {
        self.value.lemma_below_limit();
    }

    /// The number of bytes of the fields' encodings.
    fn payload_length(&self) -> (r: usize)
        ensures
            r == self@.spec_payload().len(),
            r <= 33,
    {
        uint256_length(&self.value)
    }

    /// The number of bytes of the wire form.
    pub fn length(&self) -> (r: usize)
        ensures
            r == self@.spec_encode().len(),
            r <= 34,
    {
        let n = self.payload_length();
        header_length(n) + n
    }

    /// Appends the wire form.
    pub fn encode(&self, out: &mut Vec<u8>)
        ensures
            final(out)@ == old(out)@ + self@.spec_encode(),
    {
        encode_header(out, true, self.payload_length());
        encode_uint256(out, &self.value);
        proof {
            assert(out@ =~= old(out)@ + self@.spec_encode());
        }
    }

    /// Reads a value from the front of `buf`. Returns it with the bytes
    /// that follow it.
    pub fn decode<'a>(buf: &'a [u8]) -> (r: Result<(Self, &'a [u8]), DecodeError>)
        ensures
            match MiningAddressPledgeShadowView::spec_decode(buf@) {
                Ok((value, consumed)) => r matches Ok((x, rest)) && x@ == value && rest@
                    == buf@.skip(consumed as int) && 1 <= consumed <= buf@.len(),
                Err(e) => r == Err::<(Self, &[u8]), DecodeError>(e),
            },
    {
        proof {
            reveal(MiningAddressPledgeShadowView::spec_decode);
        }
        let (payload_length, body) = match decode_list_header(buf) {
            Ok(found) => found,
            Err(e) => {
                return Err(e);
            },
        };
        let (value, rest) = match decode_uint256(body) {
            Ok(found) => found,
            Err(e) => {
                return Err(e);
            },
        };
        proof {
            crate::rlp::lemma_header_fits(buf@);
            crate::rlp::lemma_string_fits(body@);
        }
        if body.len() - rest.len() != payload_length {
            return Err(DecodeError::ListLengthMismatch);
        }
        proof {
            assert(rest@ =~= buf@.skip((buf@.len() - rest@.len()) as int));
        }
        Ok((MiningAddressPledgeShadow { value }, rest))
    }
}

impl PartitionPledgeShadowView {
    /// Whether the values are those of some `PartitionPledgeShadow`.
    pub open spec fn valid(self) -> bool {
        self.quantity < pow256(32) && self.part_hash.len() == 32
    }

    /// The fields, encoded one after the other.
    pub open spec fn spec_payload(self) -> Seq<u8> {
        spec_encode_uint(self.quantity) + spec_encode_bytes(self.part_hash) + spec_encode_uint(
            self.height as nat,
        )
    }

    /// The wire form: the list of `quantity`, `part_hash` and `height`.
    pub open spec fn spec_encode(self) -> Seq<u8> {
        spec_encode_list(self.spec_payload())
    }

    /// The value at the front of `s` and the number of bytes that it takes,
    /// or why there is none.
    #[verifier::opaque]
    pub open spec fn spec_decode(s: Seq<u8>) -> Result<
        (PartitionPledgeShadowView, nat),
        DecodeError,
    > {
        match spec_decode_list_header(s) {
            Err(e) => Err(e),
            Ok((payload_length, header_length)) => {
                let body = s.skip(header_length as int);
                match spec_decode_uint256(body) {
                    Err(e) => Err(e),
                    Ok((quantity, n1)) => match spec_decode_fixed(body.skip(n1 as int), 32) {
                        Err(e) => Err(e),
                        Ok((part_hash, n2)) => match spec_decode_u64(
                            body.skip(n1 as int).skip(n2 as int),
                        ) {
                            Err(e) => Err(e),
                            Ok((height, n3)) => spec_finish_list(
                                PartitionPledgeShadowView { quantity, part_hash, height },
                                n1 + n2 + n3,
                                payload_length,
                                header_length,
                            ),
                        },
                    },
                }
            },
        }
    }

    /// A value is read back from its wire form, whatever follows.
    pub proof fn lemma_round_trip(self, rest: Seq<u8>)
        requires
            self.valid(),
        ensures
            Self::spec_decode(self.spec_encode() + rest) == Ok::<
                (PartitionPledgeShadowView, nat),
                DecodeError,
            >((self, self.spec_encode().len())),
            self.spec_encode().len() <= 77,
    {
        reveal(PartitionPledgeShadowView::spec_decode);
        let f1 = spec_encode_uint(self.quantity);
        let f2 = spec_encode_bytes(self.part_hash);
        let f3 = spec_encode_uint(self.height as nat);
        let payload = self.spec_payload();
        lemma_decode_u64_of_encoding(self.height, rest);
        lemma_decode_fixed_of_encoding(self.part_hash, f3 + rest);
        lemma_decode_uint256_of_encoding(self.quantity, f2 + (f3 + rest));
        lemma_decode_list_header_of_encoding(payload, rest);
        crate::rlp::lemma_short_header(true, payload.len());
        assert(payload + rest =~= f1 + (f2 + (f3 + rest)));
    }

    /// A value that the decoder accepts lies within the input, and takes at
    /// least one byte.
    pub proof fn lemma_decode_fits(s: Seq<u8>)
        ensures
            Self::spec_decode(s) matches Ok((value, consumed)) ==> 1 <= consumed <= s.len(),
    {
        reveal(PartitionPledgeShadowView::spec_decode);
        crate::rlp::lemma_header_fits(s);
    }

    /// A value that the decoder accepts is written in the one form that the
    /// encoder produces: the bytes that it takes are the value's wire form.
    pub proof fn lemma_decoded_is_canonical(s: Seq<u8>)
        ensures
            Self::spec_decode(s) matches Ok((value, consumed)) ==> value.valid() && s.take(
                consumed as int,
            ) == value.spec_encode(),
    {
        reveal(PartitionPledgeShadowView::spec_decode);
        lemma_decoded_list_header_is_canonical(s);
        if let Ok((value, consumed)) = Self::spec_decode(s) {
            let header_length = spec_decode_list_header(s)->Ok_0.1;
            let body = s.skip(header_length as int);
            lemma_decoded_number_is_canonical(body);
            let n1 = spec_decode_uint256(body)->Ok_0.1;
            let after_quantity = body.skip(n1 as int);
            lemma_decoded_string_is_canonical(after_quantity);
            let n2 = spec_decode_fixed(after_quantity, 32)->Ok_0.1;
            let after_part_hash = after_quantity.skip(n2 as int);
            lemma_decoded_number_is_canonical(after_part_hash);
            let n3 = spec_decode_u64(after_part_hash)->Ok_0.1;
            assert(s.take(consumed as int) =~= s.take(header_length as int) + body.take(
                n1 as int,
            ) + after_quantity.take(n2 as int) + after_part_hash.take(n3 as int));
        }
    }
}

impl PartitionPledgeShadow {
    /// The view of every value is valid.
    pub proof fn lemma_view_valid(self)
        ensures
            self@.valid(),
    {
        self.quantity.lemma_below_limit();
    }

    /// The number of bytes of the fields' encodings.
    fn payload_length(&self) -> (r: usize)
        ensures
            r == self@.spec_payload().len(),
            r <= 75,
    {
        33 + uint256_length(&self.quantity) + u64_length(self.height)
    }

    /// The number of bytes of the wire form.
    pub fn length(&self) -> (r: usize)
        ensures
            r == self@.spec_encode().len(),
            r <= 77,
    {
        let n = self.payload_length();
        proof {
            crate::rlp::lemma_short_header(true, n as nat);
        }
        header_length(n) + n
    }

    /// Appends the wire form.
    pub fn encode(&self, out: &mut Vec<u8>)
        ensures
            final(out)@ == old(out)@ + self@.spec_encode(),
    {
        encode_header(out, true, self.payload_length());
        encode_uint256(out, &self.quantity);
        encode_bytes(out, self.part_hash.as_slice());
        encode_u64(out, self.height);
        proof {
            assert(out@ =~= old(out)@ + self@.spec_encode());
        }
    }

    /// Reads a value from the front of `buf`. Returns it with the bytes
    /// that follow it.
    pub fn decode<'a>(buf: &'a [u8]) -> (r: Result<(Self, &'a [u8]), DecodeError>)
        ensures
            match PartitionPledgeShadowView::spec_decode(buf@) {
                Ok((value, consumed)) => r matches Ok((x, rest)) && x@ == value && rest@
                    == buf@.skip(consumed as int) && 1 <= consumed <= buf@.len(),
                Err(e) => r == Err::<(Self, &[u8]), DecodeError>(e),
            },
    {
        proof {
            reveal(PartitionPledgeShadowView::spec_decode);
        }
        let (payload_length, body) = match decode_list_header(buf) {
            Ok(found) => found,
            Err(e) => {
                return Err(e);
            },
        };
        let (quantity, after_quantity) = match decode_uint256(body) {
            Ok(found) => found,
            Err(e) => {
                return Err(e);
            },
        };
        let (part_hash, after_part_hash) = match decode_fixed::<32>(after_quantity) {
            Ok(found) => found,
            Err(e) => {
                return Err(e);
            },
        };
        let (height, rest) = match decode_u64(after_part_hash) {
            Ok(found) => found,
            Err(e) => {
                return Err(e);
            },
        };
        proof {
            crate::rlp::lemma_header_fits(buf@);
            crate::rlp::lemma_string_fits(body@);
            crate::rlp::lemma_string_fits(after_quantity@);
            crate::rlp::lemma_string_fits(after_part_hash@);
        }
        if body.len() - rest.len() != payload_length {
            return Err(DecodeError::ListLengthMismatch);
        }
        proof {
            assert(rest@ =~= buf@.skip((buf@.len() - rest@.len()) as int));
        }
        Ok((PartitionPledgeShadow { quantity, part_hash: TxId(part_hash), height }, rest))
    }
}

impl PartitionUnPledgeShadowView {
    /// Whether the values are those of some `PartitionUnPledgeShadow`.
    pub open spec fn valid(self) -> bool {
        self.part_hash.len() == 32
    }

    /// The fields, encoded one after the other.
    pub open spec fn spec_payload(self) -> Seq<u8> {
        spec_encode_bytes(self.part_hash)
    }

    /// The wire form: the list that holds `part_hash`.
    pub open spec fn spec_encode(self) -> Seq<u8> {
        spec_encode_list(self.spec_payload())
    }

    /// The value at the front of `s` and the number of bytes that it takes,
    /// or why there is none.
    #[verifier::opaque]
    pub open spec fn spec_decode(s: Seq<u8>) -> Result<
        (PartitionUnPledgeShadowView, nat),
        DecodeError,
    > {
        match spec_decode_list_header(s) {
            Err(e) => Err(e),
            Ok((payload_length, header_length)) => {
                let body = s.skip(header_length as int);
                match spec_decode_fixed(body, 32) {
                    Err(e) => Err(e),
                    Ok((part_hash, n1)) => spec_finish_list(
                        PartitionUnPledgeShadowView { part_hash },
                        n1,
                        payload_length,
                        header_length,
                    ),
                }
            },
        }
    }

    /// A value is read back from its wire form, whatever follows.
    pub proof fn lemma_round_trip(self, rest: Seq<u8>)
        requires
            self.valid(),
        ensures
            Self::spec_decode(self.spec_encode() + rest) == Ok::<
                (PartitionUnPledgeShadowView, nat),
                DecodeError,
            >((self, self.spec_encode().len())),
            self.spec_encode().len() <= 34,
    {
        reveal(PartitionUnPledgeShadowView::spec_decode);
        let f1 = spec_encode_bytes(self.part_hash);
        let payload = self.spec_payload();
        lemma_decode_fixed_of_encoding(self.part_hash, rest);
        lemma_decode_list_header_of_encoding(payload, rest);

    }

    /// A value that the decoder accepts lies within the input, and takes at
    /// least one byte.
    pub proof fn lemma_decode_fits(s: Seq<u8>)
        ensures
            Self::spec_decode(s) matches Ok((value, consumed)) ==> 1 <= consumed <= s.len(),
    {
        reveal(PartitionUnPledgeShadowView::spec_decode);
        crate::rlp::lemma_header_fits(s);
    }

    /// A value that the decoder accepts is written in the one form that the
    /// encoder produces: the bytes that it takes are the value's wire form.
    pub proof fn lemma_decoded_is_canonical(s: Seq<u8>)
        ensures
            Self::spec_decode(s) matches Ok((value, consumed)) ==> value.valid() && s.take(
                consumed as int,
            ) == value.spec_encode(),
    {
        reveal(PartitionUnPledgeShadowView::spec_decode);
        lemma_decoded_list_header_is_canonical(s);
        if let Ok((value, consumed)) = Self::spec_decode(s) {
            let header_length = spec_decode_list_header(s)->Ok_0.1;
            let body = s.skip(header_length as int);
            lemma_decoded_string_is_canonical(body);
            let n1 = spec_decode_fixed(body, 32)->Ok_0.1;
            assert(s.take(consumed as int) =~= s.take(header_length as int) + body.take(n1 as int));
        }
    }
}

impl PartitionUnPledgeShadow {
    /// The view of every value is valid.
    pub proof fn lemma_view_valid(self)
        ensures
            self@.valid(),
    {
    }

    /// The number of bytes of the fields' encodings.
    fn payload_length(&self) -> (r: usize)
        ensures
            r == self@.spec_payload().len(),
            r <= 33,
    {
        33
    }

    /// The number of bytes of the wire form.
    pub fn length(&self) -> (r: usize)
        ensures
            r == self@.spec_encode().len(),
            r <= 34,
    {
        let n = self.payload_length();
        header_length(n) + n
    }

    /// Appends the wire form.
    pub fn encode(&self, out: &mut Vec<u8>)
        ensures
            final(out)@ == old(out)@ + self@.spec_encode(),
    {
        encode_header(out, true, self.payload_length());
        encode_bytes(out, self.part_hash.as_slice());
        proof {
            assert(out@ =~= old(out)@ + self@.spec_encode());
        }
    }

    /// Reads a value from the front of `buf`. Returns it with the bytes
    /// that follow it.
    pub fn decode<'a>(buf: &'a [u8]) -> (r: Result<(Self, &'a [u8]), DecodeError>)
        ensures
            match PartitionUnPledgeShadowView::spec_decode(buf@) {
                Ok((value, consumed)) => r matches Ok((x, rest)) && x@ == value && rest@
                    == buf@.skip(consumed as int) && 1 <= consumed <= buf@.len(),
                Err(e) => r == Err::<(Self, &[u8]), DecodeError>(e),
            },
    {
        proof {
            reveal(PartitionUnPledgeShadowView::spec_decode);
        }
        let (payload_length, body) = match decode_list_header(buf) {
            Ok(found) => found,
            Err(e) => {
                return Err(e);
            },
        };
        let (part_hash, rest) = match decode_fixed::<32>(body) {
            Ok(found) => found,
            Err(e) => {
                return Err(e);
            },
        };
        proof {
            crate::rlp::lemma_header_fits(buf@);
            crate::rlp::lemma_string_fits(body@);
        }
        if body.len() - rest.len() != payload_length {
            return Err(DecodeError::ListLengthMismatch);
        }
        proof {
            assert(rest@ =~= buf@.skip((buf@.len() - rest@.len()) as int));
        }
        Ok((PartitionUnPledgeShadow { part_hash: TxId(part_hash) }, rest))
    }
}

impl SlashShadowView {
    /// Whether the values are those of some `SlashShadow`.
    pub open spec fn valid(self) -> bool {
        self.slashed_addr.len() == 20
    }

    /// The fields, encoded one after the other.
    pub open spec fn spec_payload(self) -> Seq<u8> {
        spec_encode_bytes(self.slashed_addr)
    }

    /// The wire form: the list that holds `slashed_addr`.
    pub open spec fn spec_encode(self) -> Seq<u8> {
        spec_encode_list(self.spec_payload())
    }

    /// The value at the front of `s` and the number of bytes that it takes,
    /// or why there is none.
    #[verifier::opaque]
    pub open spec fn spec_decode(s: Seq<u8>) -> Result<(SlashShadowView, nat), DecodeError> {
        match spec_decode_list_header(s) {
            Err(e) => Err(e),
            Ok((payload_length, header_length)) => {
                let body = s.skip(header_length as int);
                match spec_decode_fixed(body, 20) {
                    Err(e) => Err(e),
                    Ok((slashed_addr, n1)) => spec_finish_list(
                        SlashShadowView { slashed_addr },
                        n1,
                        payload_length,
                        header_length,
                    ),
                }
            },
        }
    }

    /// A value is read back from its wire form, whatever follows.
    pub proof fn lemma_round_trip(self, rest: Seq<u8>)
        requires
            self.valid(),
        ensures
            Self::spec_decode(self.spec_encode() + rest) == Ok::<
                (SlashShadowView, nat),
                DecodeError,
            >((self, self.spec_encode().len())),
            self.spec_encode().len() <= 22,
    {
        reveal(SlashShadowView::spec_decode);
        let f1 = spec_encode_bytes(self.slashed_addr);
        let payload = self.spec_payload();
        lemma_decode_fixed_of_encoding(self.slashed_addr, rest);
        lemma_decode_list_header_of_encoding(payload, rest);

    }

    /// A value that the decoder accepts lies within the input, and takes at
    /// least one byte.
    pub proof fn lemma_decode_fits(s: Seq<u8>)
        ensures
            Self::spec_decode(s) matches Ok((value, consumed)) ==> 1 <= consumed <= s.len(),
    {
        reveal(SlashShadowView::spec_decode);
        crate::rlp::lemma_header_fits(s);
    }

    /// A value that the decoder accepts is written in the one form that the
    /// encoder produces: the bytes that it takes are the value's wire form.
    pub proof fn lemma_decoded_is_canonical(s: Seq<u8>)
        ensures
            Self::spec_decode(s) matches Ok((value, consumed)) ==> value.valid() && s.take(
                consumed as int,
            ) == value.spec_encode(),
    {
        reveal(SlashShadowView::spec_decode);
        lemma_decoded_list_header_is_canonical(s);
        if let Ok((value, consumed)) = Self::spec_decode(s) {
            let header_length = spec_decode_list_header(s)->Ok_0.1;
            let body = s.skip(header_length as int);
            lemma_decoded_string_is_canonical(body);
            let n1 = spec_decode_fixed(body, 20)->Ok_0.1;
            assert(s.take(consumed as int) =~= s.take(header_length as int) + body.take(n1 as int));
        }
    }
}

impl SlashShadow {
    /// The view of every value is valid.
    pub proof fn lemma_view_valid(self)
        ensures
            self@.valid(),
    {
    }

    /// The number of bytes of the fields' encodings.
    fn payload_length(&self) -> (r: usize)
        ensures
            r == self@.spec_payload().len(),
            r <= 21,
    {
        21
    }

    /// The number of bytes of the wire form.
    pub fn length(&self) -> (r: usize)
        ensures
            r == self@.spec_encode().len(),
            r <= 22,
    {
        let n = self.payload_length();
        header_length(n) + n
    }

    /// Appends the wire form.
    pub fn encode(&self, out: &mut Vec<u8>)
        ensures
            final(out)@ == old(out)@ + self@.spec_encode(),
    {
        encode_header(out, true, self.payload_length());
        encode_bytes(out, self.slashed_addr.as_slice());
        proof {
            assert(out@ =~= old(out)@ + self@.spec_encode());
        }
    }

    /// Reads a value from the front of `buf`. Returns it with the bytes
    /// that follow it.
    pub fn decode<'a>(buf: &'a [u8]) -> (r: Result<(Self, &'a [u8]), DecodeError>)
        ensures
            match SlashShadowView::spec_decode(buf@) {
                Ok((value, consumed)) => r matches Ok((x, rest)) && x@ == value && rest@
                    == buf@.skip(consumed as int) && 1 <= consumed <= buf@.len(),
                Err(e) => r == Err::<(Self, &[u8]), DecodeError>(e),
            },
    {
        proof {
            reveal(SlashShadowView::spec_decode);
        }
        let (payload_length, body) = match decode_list_header(buf) {
            Ok(found) => found,
            Err(e) => {
                return Err(e);
            },
        };
        let (slashed_addr, rest) = match decode_fixed::<20>(body) {
            Ok(found) => found,
            Err(e) => {
                return Err(e);
            },
        };
        proof {
            crate::rlp::lemma_header_fits(buf@);
            crate::rlp::lemma_string_fits(body@);
        }
        if body.len() - rest.len() != payload_length {
            return Err(DecodeError::ListLengthMismatch);
        }
        proof {
            assert(rest@ =~= buf@.skip((buf@.len() - rest@.len()) as int));
        }
        Ok((SlashShadow { slashed_addr: Address(slashed_addr) }, rest))
    }
}

impl UnpledgeAllShadow {
    /// The wire form: the empty list.
    pub open spec fn spec_encode() -> Seq<u8> {
        spec_encode_list(Seq::empty())
    }

    /// The number of bytes that the value at the front of `s` takes, or why
    /// there is none.
    pub open spec fn spec_decode(s: Seq<u8>) -> Result<(UnpledgeAllShadow, nat), DecodeError> {
        match spec_decode_list_header(s) {
            Err(e) => Err(e),
            Ok((payload_length, header_length)) => spec_finish_list(
                UnpledgeAllShadow {  },
                0,
                payload_length,
                header_length,
            ),
        }
    }

    /// A value that the decoder accepts lies within the input, and takes
    /// one byte.
    pub proof fn lemma_decode_fits(s: Seq<u8>)
        ensures
            Self::spec_decode(s) matches Ok((value, consumed)) ==> 1 <= consumed <= s.len(),
    {
        crate::rlp::lemma_header_fits(s);
    }

    /// A value that the decoder accepts is written in the one form that the
    /// encoder produces.
    pub proof fn lemma_decoded_is_canonical(s: Seq<u8>)
        ensures
            Self::spec_decode(s) matches Ok((value, consumed)) ==> s.take(consumed as int)
                == Self::spec_encode(),
    {
        lemma_decoded_list_header_is_canonical(s);
        if let Ok((value, consumed)) = Self::spec_decode(s) {
            assert(s.take(consumed as int) =~= spec_header(true, 0) + Seq::<u8>::empty());
        }
    }

    /// The value is read back from its wire form, whatever follows.
    pub proof fn lemma_round_trip(rest: Seq<u8>)
        ensures
            Self::spec_decode(Self::spec_encode() + rest) == Ok::<
                (UnpledgeAllShadow, nat),
                DecodeError,
            >((UnpledgeAllShadow {  }, 1)),
            Self::spec_encode().len() == 1,
    {
        lemma_decode_list_header_of_encoding(Seq::empty(), rest);
    }

    /// The number of bytes of the wire form.
    pub fn length(&self) -> (r: usize)
        ensures
            r == Self::spec_encode().len(),
            r == 1,
    {
        1
    }

    /// Appends the wire form.
    pub fn encode(&self, out: &mut Vec<u8>)
        ensures
            final(out)@ == old(out)@ + Self::spec_encode(),
    {
        encode_header(out, true, 0);
        proof {
            assert(out@ =~= old(out)@ + Self::spec_encode());
        }
    }

    /// Reads the value from the front of `buf`. Returns it with the bytes
    /// that follow it.
    pub fn decode<'a>(buf: &'a [u8]) -> (r: Result<(Self, &'a [u8]), DecodeError>)
        ensures
            match Self::spec_decode(buf@) {
                Ok((value, consumed)) => r matches Ok((x, rest)) && rest@ == buf@.skip(
                    consumed as int,
                ) && 1 <= consumed <= buf@.len(),
                Err(e) => r == Err::<(Self, &[u8]), DecodeError>(e),
            },
    {
        let (payload_length, body) = match decode_list_header(buf) {
            Ok(found) => found,
            Err(e) => {
                return Err(e);
            },
        };
        if payload_length != 0 {
            return Err(DecodeError::ListLengthMismatch);
        }
        proof {
            crate::rlp::lemma_header_fits(buf@);
        }
        Ok((UnpledgeAllShadow {  }, body))
    }
}

/// Why a value cannot be written in its wire form.
#[derive(Clone, Copy, Debug, PartialEq, Eq, Structural, Hash)]
pub enum EncodeError {
    /// The operation is a `Diff`, which has no wire form.
    NoWireForm,
    /// The wire form has more bytes than a length can count.
    TooLong,
}

/// What the decoder makes of an operation's fields behind the type byte.
pub open spec fn spec_behind_type_byte<T>(
    fields: Result<(T, nat), DecodeError>,
    operation: spec_fn(T) -> ShadowTxTypeView,
) -> Result<(ShadowTxTypeView, nat), DecodeError> {
    match fields {
        Ok((value, consumed)) => Ok((operation(value), consumed + 1)),
        Err(e) => Err(e),
    }
}

impl ShadowTxTypeView {
    /// Whether the values are those of some `ShadowTxType`, as far as the
    /// wire form reads them.
    pub open spec fn valid(self) -> bool {
        match self {
            ShadowTxTypeView::Transfer(t) => t.valid(),
            ShadowTxTypeView::Data(d) => d.valid(),
            ShadowTxTypeView::MiningAddressPledge(m) => m.valid(),
            ShadowTxTypeView::PartitionPledge(p) => p.valid(),
            ShadowTxTypeView::PartitionUnPledge(p) => p.valid(),
            ShadowTxTypeView::Slash(s) => s.valid(),
            _ => true,
        }
    }

    /// The type of the operation, where it has one: `Diff` has none.
    pub open spec fn spec_type_id(self) -> Option<ShadowTxTypeId> {
        match self {
            ShadowTxTypeView::Null => Some(ShadowTxTypeId::Null),
            ShadowTxTypeView::Transfer(_) => Some(ShadowTxTypeId::Transfer),
            ShadowTxTypeView::Data(_) => Some(ShadowTxTypeId::Data),
            ShadowTxTypeView::MiningAddressPledge(_) => Some(ShadowTxTypeId::MiningAddressPledge),
            ShadowTxTypeView::PartitionPledge(_) => Some(ShadowTxTypeId::PartitionPledge),
            ShadowTxTypeView::PartitionUnPledge(_) => Some(ShadowTxTypeId::PartitionUnPledge),
            ShadowTxTypeView::UnpledgeAll => Some(ShadowTxTypeId::UnpledgeAll),
            ShadowTxTypeView::Slash(_) => Some(ShadowTxTypeId::Slash),
            ShadowTxTypeView::Diff(_) => None,
        }
    }

    /// The fields of the operation in their wire form, behind the type
    /// byte. `Null` has none.
    pub open spec fn spec_fields(self) -> Seq<u8> {
        match self {
            ShadowTxTypeView::Transfer(t) => t.spec_encode(),
            ShadowTxTypeView::Data(d) => d.spec_encode(),
            ShadowTxTypeView::MiningAddressPledge(m) => m.spec_encode(),
            ShadowTxTypeView::PartitionPledge(p) => p.spec_encode(),
            ShadowTxTypeView::PartitionUnPledge(p) => p.spec_encode(),
            ShadowTxTypeView::UnpledgeAll => UnpledgeAllShadow::spec_encode(),
            ShadowTxTypeView::Slash(s) => s.spec_encode(),
            _ => Seq::empty(),
        }
    }

    /// The wire form: the type byte, then the fields. `Diff` has none.
    pub open spec fn spec_encode(self) -> Option<Seq<u8>> {
        match self.spec_type_id() {
            Some(id) => Some(seq![id.spec_to_u8()] + self.spec_fields()),
            None => None,
        }
    }

    /// The operation at the front of `s` and the number of bytes that it
    /// takes, or why there is none. A first byte above 7 names no
    /// operation.
    #[verifier::opaque]
    pub open spec fn spec_decode(s: Seq<u8>) -> Result<(ShadowTxTypeView, nat), DecodeError> {
        if s.len() == 0 {
            Err(DecodeError::InputTooShort)
        } else {
            let body = s.skip(1);
            match ShadowTxTypeId::spec_from_u8(s[0]) {
                Err(_) => Err(DecodeError::UnknownShadowTypeId(s[0])),
                Ok(ShadowTxTypeId::Null) => Ok((ShadowTxTypeView::Null, 1)),
                Ok(ShadowTxTypeId::Transfer) => spec_behind_type_byte(
                    TransferShadowView::spec_decode(body),
                    |t: TransferShadowView| ShadowTxTypeView::Transfer(t),
                ),
                Ok(ShadowTxTypeId::Data) => spec_behind_type_byte(
                    DataShadowView::spec_decode(body),
                    |d: DataShadowView| ShadowTxTypeView::Data(d),
                ),
                Ok(ShadowTxTypeId::MiningAddressPledge) => spec_behind_type_byte(
                    MiningAddressPledgeShadowView::spec_decode(body),
                    |m: MiningAddressPledgeShadowView| ShadowTxTypeView::MiningAddressPledge(m),
                ),
                Ok(ShadowTxTypeId::PartitionPledge) => spec_behind_type_byte(
                    PartitionPledgeShadowView::spec_decode(body),
                    |p: PartitionPledgeShadowView| ShadowTxTypeView::PartitionPledge(p),
                ),
                Ok(ShadowTxTypeId::PartitionUnPledge) => spec_behind_type_byte(
                    PartitionUnPledgeShadowView::spec_decode(body),
                    |p: PartitionUnPledgeShadowView| ShadowTxTypeView::PartitionUnPledge(p),
                ),
                Ok(ShadowTxTypeId::UnpledgeAll) => spec_behind_type_byte(
                    UnpledgeAllShadow::spec_decode(body),
                    |u: UnpledgeAllShadow| ShadowTxTypeView::UnpledgeAll,
                ),
                Ok(ShadowTxTypeId::Slash) => spec_behind_type_byte(
                    SlashShadowView::spec_decode(body),
                    |v: SlashShadowView| ShadowTxTypeView::Slash(v),
                ),
            }
        }
    }

    /// An operation that the decoder accepts is written in the one form
    /// that the encoder produces: the bytes that it takes are the
    /// operation's wire form.
    pub proof fn lemma_decoded_is_canonical(s: Seq<u8>)
        ensures
            Self::spec_decode(s) matches Ok((value, consumed)) ==> value.valid() && !(
            value is Diff) && value.spec_encode() == Some(s.take(consumed as int)),
    {
        reveal(ShadowTxTypeView::spec_decode);
        if let Ok((value, consumed)) = Self::spec_decode(s) {
            let body = s.skip(1);
            TransferShadowView::lemma_decoded_is_canonical(body);
            DataShadowView::lemma_decoded_is_canonical(body);
            MiningAddressPledgeShadowView::lemma_decoded_is_canonical(body);
            PartitionPledgeShadowView::lemma_decoded_is_canonical(body);
            PartitionUnPledgeShadowView::lemma_decoded_is_canonical(body);
            UnpledgeAllShadow::lemma_decoded_is_canonical(body);
            SlashShadowView::lemma_decoded_is_canonical(body);
            lemma_operation_fits(s);
            assert(s.take(consumed as int) =~= seq![s[0]] + body.take(consumed - 1));
            assert(value.spec_encode()->0 =~= s.take(consumed as int));
        }
    }

    /// An operation that has a wire form is read back from it, whatever
    /// follows.
    pub proof fn lemma_round_trip(self, rest: Seq<u8>)
        requires
            self.valid(),
            !(self is Diff),
        ensures
            self.spec_encode() is Some,
            Self::spec_decode(self.spec_encode()->0 + rest) == Ok::<
                (ShadowTxTypeView, nat),
                DecodeError,
            >((self, self.spec_encode()->0.len())),
            1 <= self.spec_encode()->0.len() <= 78,
    {
        reveal(ShadowTxTypeView::spec_decode);
        let fields = self.spec_fields();
        let encoding = self.spec_encode()->0;
        let s = encoding + rest;
        assert(s.skip(1) =~= fields + rest);
        assert(s[0] == self.spec_type_id()->0.spec_to_u8());
        match self {
            ShadowTxTypeView::Transfer(t) => {
                t.lemma_round_trip(rest);
            },
            ShadowTxTypeView::Data(d) => {
                d.lemma_round_trip(rest);
            },
            ShadowTxTypeView::MiningAddressPledge(m) => {
                m.lemma_round_trip(rest);
            },
            ShadowTxTypeView::PartitionPledge(p) => {
                p.lemma_round_trip(rest);
            },
            ShadowTxTypeView::PartitionUnPledge(p) => {
                p.lemma_round_trip(rest);
            },
            ShadowTxTypeView::UnpledgeAll => {
                UnpledgeAllShadow::lemma_round_trip(rest);
            },
            ShadowTxTypeView::Slash(v) => {
                v.lemma_round_trip(rest);
            },
            _ => {},
        }
    }
}

/// Operations that have a wire form and hold the same plain values are the
/// same operation.
pub proof fn lemma_same_view_same_operation(a: ShadowTxType, b: ShadowTxType)
    requires
        a@ == b@,
        !(a is Diff),
    ensures
        a == b,
{
    match (a, b) {
        (ShadowTxType::Transfer(x), ShadowTxType::Transfer(y)) => {
            x.amount.lemma_same_value(y.amount);
            assert(x.to.0 =~= y.to.0);
        },
        (ShadowTxType::Data(x), ShadowTxType::Data(y)) => {
            x.fee.lemma_same_value(y.fee);
        },
        (ShadowTxType::MiningAddressPledge(x), ShadowTxType::MiningAddressPledge(y)) => {
            x.value.lemma_same_value(y.value);
        },
        (ShadowTxType::PartitionPledge(x), ShadowTxType::PartitionPledge(y)) => {
            x.quantity.lemma_same_value(y.quantity);
            assert(x.part_hash.0 =~= y.part_hash.0);
        },
        (ShadowTxType::PartitionUnPledge(x), ShadowTxType::PartitionUnPledge(y)) => {
            assert(x.part_hash.0 =~= y.part_hash.0);
        },
        (ShadowTxType::Slash(x), ShadowTxType::Slash(y)) => {
            assert(x.slashed_addr.0 =~= y.slashed_addr.0);
        },
        _ => {},
    }
}

/// Every operation that has a wire form is read back from it: in the
/// encoder's bytes, whatever follows them, the decoder finds the plain
/// values of the operation that was encoded, and takes exactly those bytes.
/// With `lemma_same_view_same_operation`, what it returns is that
/// operation.
pub proof fn lemma_operation_round_trip(op: ShadowTxType, rest: Seq<u8>)
    requires
        !(op is Diff),
    ensures
        op@.spec_encode() is Some,
        ShadowTxTypeView::spec_decode(op@.spec_encode()->0 + rest) == Ok::<
            (ShadowTxTypeView, nat),
            DecodeError,
        >((op@, op@.spec_encode()->0.len())),
{
    op.lemma_view_valid();
    op@.lemma_round_trip(rest);
}

/// Every shadow transaction that has a wire form is read back from it.
pub proof fn lemma_transaction_round_trip(tx: ShadowTx, rest: Seq<u8>)
    requires
        !(tx.tx is Diff),
    ensures
        tx@.spec_encode() is Some,
        ShadowTxView::spec_decode(tx@.spec_encode()->0 + rest) == Ok::<
            (ShadowTxView, nat),
            DecodeError,
        >((tx@, tx@.spec_encode()->0.len())),
{
    tx.lemma_view_valid();
    tx@.lemma_round_trip(rest);
}

impl ShadowTxType {
    /// The view of every operation is valid.
    pub proof fn lemma_view_valid(self)
        ensures
            self@.valid(),
    {
        match self {
            ShadowTxType::Transfer(t) => {
                t.lemma_view_valid();
            },
            ShadowTxType::Data(d) => {
                d.lemma_view_valid();
            },
            ShadowTxType::MiningAddressPledge(m) => {
                m.lemma_view_valid();
            },
            ShadowTxType::PartitionPledge(p) => {
                p.lemma_view_valid();
            },
            ShadowTxType::PartitionUnPledge(p) => {
                p.lemma_view_valid();
            },
            ShadowTxType::Slash(s) => {
                s.lemma_view_valid();
            },
            _ => {},
        }
    }

    /// The type of the operation, where it has one: `Diff` has none.
    pub fn type_id(&self) -> (r: Option<ShadowTxTypeId>)
        ensures
            r == self@.spec_type_id(),
    {
        match self {
            ShadowTxType::Null => Some(ShadowTxTypeId::Null),
            ShadowTxType::Transfer(_) => Some(ShadowTxTypeId::Transfer),
            ShadowTxType::Data(_) => Some(ShadowTxTypeId::Data),
            ShadowTxType::MiningAddressPledge(_) => Some(ShadowTxTypeId::MiningAddressPledge),
            ShadowTxType::PartitionPledge(_) => Some(ShadowTxTypeId::PartitionPledge),
            ShadowTxType::PartitionUnPledge(_) => Some(ShadowTxTypeId::PartitionUnPledge),
            ShadowTxType::UnpledgeAll(_) => Some(ShadowTxTypeId::UnpledgeAll),
            ShadowTxType::Slash(_) => Some(ShadowTxTypeId::Slash),
            ShadowTxType::Diff(_) => None,
        }
    }

    /// The number of bytes of the wire form, or zero for a `Diff`, which
    /// has none.
    pub fn length(&self) -> (r: usize)
        ensures
            match self@.spec_encode() {
                Some(encoding) => r == encoding.len(),
                None => r == 0,
            },
            r <= 78,
    {
        match self {
            ShadowTxType::Null => 1,
            ShadowTxType::Transfer(t) => 1 + t.length(),
            ShadowTxType::Data(d) => 1 + d.length(),
            ShadowTxType::MiningAddressPledge(m) => 1 + m.length(),
            ShadowTxType::PartitionPledge(p) => 1 + p.length(),
            ShadowTxType::PartitionUnPledge(p) => 1 + p.length(),
            ShadowTxType::UnpledgeAll(u) => 1 + u.length(),
            ShadowTxType::Slash(s) => 1 + s.length(),
            ShadowTxType::Diff(_) => 0,
        }
    }

    /// Appends the wire form. A `Diff` has none: it is refused, and
    /// nothing is written.
    pub fn encode(&self, out: &mut Vec<u8>) -> (r: Result<(), EncodeError>)
        ensures
            match self@.spec_encode() {
                Some(encoding) => r is Ok && final(out)@ == old(out)@ + encoding,
                None => r == Err::<(), EncodeError>(EncodeError::NoWireForm) && final(out)@
                    == old(out)@,
            },
    {
        let id = match self.type_id() {
            Some(id) => id,
            None => {
                return Err(EncodeError::NoWireForm);
            },
        };
        out.push(id.to_u8());
        match self {
            ShadowTxType::Transfer(t) => t.encode(out),
            ShadowTxType::Data(d) => d.encode(out),
            ShadowTxType::MiningAddressPledge(m) => m.encode(out),
            ShadowTxType::PartitionPledge(p) => p.encode(out),
            ShadowTxType::PartitionUnPledge(p) => p.encode(out),
            ShadowTxType::UnpledgeAll(u) => u.encode(out),
            ShadowTxType::Slash(s) => s.encode(out),
            _ => {},
        }
        proof {
            assert(out@ =~= old(out)@ + self@.spec_encode()->0);
        }
        Ok(())
    }

    /// Reads an operation from the front of `buf`. Returns it with the
    /// bytes that follow it. What is read is the wire form of what is
    /// returned: no other bytes are accepted for it. A first byte that
    /// names no operation is refused with that byte in the error.
    pub fn decode<'a>(buf: &'a [u8]) -> (r: Result<(Self, &'a [u8]), DecodeError>)
        ensures
            match ShadowTxTypeView::spec_decode(buf@) {
                Ok((value, consumed)) => r matches Ok((x, rest)) && x@ == value && rest@
                    == buf@.skip(consumed as int),
                Err(e) => r == Err::<(Self, &[u8]), DecodeError>(e),
            },
            r matches Ok((x, rest)) ==> x@.spec_encode() == Some(
                buf@.take(buf@.len() - rest@.len()),
            ),
    {
        proof {
            reveal(ShadowTxTypeView::spec_decode);
            ShadowTxTypeView::lemma_decoded_is_canonical(buf@);
            lemma_operation_fits(buf@);
        }
        if buf.len() == 0 {
            return Err(DecodeError::InputTooShort);
        }
        let id = match ShadowTxTypeId::try_from(buf[0]) {
            Ok(id) => id,
            Err(ShadowTxTypeIdDecodeError::UnknownShadowTypeId(byte)) => {
                return Err(DecodeError::UnknownShadowTypeId(byte));
            },
        };
        let body = slice_from(buf, 1);
        proof {
            assert forall|n: nat| n <= body@.len() implies #[trigger] body@.skip(n as int)
                == buf@.skip((n + 1) as int) by {
                assert(body@.skip(n as int) =~= buf@.skip((n + 1) as int));
            }
        }
        match id {
            ShadowTxTypeId::Null => Ok((ShadowTxType::Null, body)),
            ShadowTxTypeId::Transfer => match TransferShadow::decode(body) {
                Ok((t, rest)) => Ok((ShadowTxType::Transfer(t), rest)),
                Err(e) => Err(e),
            },
            ShadowTxTypeId::Data => match DataShadow::decode(body) {
                Ok((d, rest)) => Ok((ShadowTxType::Data(d), rest)),
                Err(e) => Err(e),
            },
            ShadowTxTypeId::MiningAddressPledge => match MiningAddressPledgeShadow::decode(body) {
                Ok((m, rest)) => Ok((ShadowTxType::MiningAddressPledge(m), rest)),
                Err(e) => Err(e),
            },
            ShadowTxTypeId::PartitionPledge => match PartitionPledgeShadow::decode(body) {
                Ok((p, rest)) => Ok((ShadowTxType::PartitionPledge(p), rest)),
                Err(e) => Err(e),
            },
            ShadowTxTypeId::PartitionUnPledge => match PartitionUnPledgeShadow::decode(body) {
                Ok((p, rest)) => Ok((ShadowTxType::PartitionUnPledge(p), rest)),
                Err(e) => Err(e),
            },
            ShadowTxTypeId::UnpledgeAll => match UnpledgeAllShadow::decode(body) {
                Ok((u, rest)) => Ok((ShadowTxType::UnpledgeAll(u), rest)),
                Err(e) => Err(e),
            },
            ShadowTxTypeId::Slash => match SlashShadow::decode(body) {
                Ok((s, rest)) => Ok((ShadowTxType::Slash(s), rest)),
                Err(e) => Err(e),
            },
        }
    }
}

impl ShadowTxView {
    /// Whether the values are those of some `ShadowTx`, as far as the wire
    /// form reads them.
    pub open spec fn valid(self) -> bool {
        self.tx_id.len() == 32 && self.address.len() == 20 && self.tx.valid()
    }

    /// The wire form: the list of the identifier, the address and the
    /// operation. A transaction whose operation is a `Diff` has none.
    #[verifier::opaque]
    pub open spec fn spec_encode(self) -> Option<Seq<u8>> {
        match self.tx.spec_encode() {
            Some(operation) => Some(
                spec_encode_list(
                    spec_encode_bytes(self.tx_id) + spec_encode_bytes(self.address) + operation,
                ),
            ),
            None => None,
        }
    }

    /// The transaction at the front of `s` and the number of bytes that it
    /// takes, or why there is none.
    #[verifier::opaque]
    pub open spec fn spec_decode(s: Seq<u8>) -> Result<(ShadowTxView, nat), DecodeError> {
        match spec_decode_list_header(s) {
            Err(e) => Err(e),
            Ok((payload_length, header_length)) => {
                let body = s.skip(header_length as int);
                match spec_decode_fixed(body, 32) {
                    Err(e) => Err(e),
                    Ok((tx_id, n1)) => match spec_decode_fixed(body.skip(n1 as int), 20) {
                        Err(e) => Err(e),
                        Ok((address, n2)) => match ShadowTxTypeView::spec_decode(
                            body.skip(n1 as int).skip(n2 as int),
                        ) {
                            Err(e) => Err(e),
                            Ok((tx, n3)) => spec_finish_list(
                                ShadowTxView { tx_id, address, tx },
                                n1 + n2 + n3,
                                payload_length,
                                header_length,
                            ),
                        },
                    },
                }
            },
        }
    }

    /// A transaction that the decoder accepts is written in the one form
    /// that the encoder produces: the bytes that it takes are the
    /// transaction's wire form.
    pub proof fn lemma_decoded_is_canonical(s: Seq<u8>)
        ensures
            Self::spec_decode(s) matches Ok((value, consumed)) ==> value.valid() && !(
            value.tx is Diff) && value.spec_encode() == Some(s.take(consumed as int)),
    {
        reveal(ShadowTxView::spec_encode);
        reveal(ShadowTxView::spec_decode);
        lemma_decoded_list_header_is_canonical(s);
        if let Ok((value, consumed)) = Self::spec_decode(s) {
            let header_length = spec_decode_list_header(s)->Ok_0.1;
            let body = s.skip(header_length as int);
            lemma_decoded_string_is_canonical(body);
            let n1 = spec_decode_fixed(body, 32)->Ok_0.1;
            let after_tx_id = body.skip(n1 as int);
            lemma_decoded_string_is_canonical(after_tx_id);
            let n2 = spec_decode_fixed(after_tx_id, 20)->Ok_0.1;
            let after_address = after_tx_id.skip(n2 as int);
            ShadowTxTypeView::lemma_decoded_is_canonical(after_address);
            let n3 = ShadowTxTypeView::spec_decode(after_address)->Ok_0.1;
            assert(s.take(consumed as int) =~= s.take(header_length as int) + body.take(
                n1 as int,
            ) + after_tx_id.take(n2 as int) + after_address.take(n3 as int));
            assert(value.spec_encode()->0 =~= s.take(consumed as int));
        }
    }

    /// A transaction that has a wire form is read back from it, whatever
    /// follows.
    pub proof fn lemma_round_trip(self, rest: Seq<u8>)
        requires
            self.valid(),
            !(self.tx is Diff),
        ensures
            self.spec_encode() is Some,
            Self::spec_decode(self.spec_encode()->0 + rest) == Ok::<
                (ShadowTxView, nat),
                DecodeError,
            >((self, self.spec_encode()->0.len())),
            1 <= self.spec_encode()->0.len() <= 134,
    {
        reveal(ShadowTxView::spec_encode);
        reveal(ShadowTxView::spec_decode);
        self.tx.lemma_round_trip(rest);
        let f1 = spec_encode_bytes(self.tx_id);
        let f2 = spec_encode_bytes(self.address);
        let f3 = self.tx.spec_encode()->0;
        let payload = f1 + f2 + f3;
        lemma_decode_fixed_of_encoding(self.address, f3 + rest);
        lemma_decode_fixed_of_encoding(self.tx_id, f2 + (f3 + rest));
        lemma_decode_list_header_of_encoding(payload, rest);
        crate::rlp::lemma_short_header(true, payload.len());
        assert(payload + rest =~= f1 + (f2 + (f3 + rest)));
    }
}

impl ShadowTx {
    /// The view of every transaction is valid.
    pub proof fn lemma_view_valid(self)
        ensures
            self@.valid(),
    {
        self.tx.lemma_view_valid();
    }

    /// The number of bytes of the fields' encodings, or zero where the
    /// operation is a `Diff`.
    fn payload_length(&self) -> (r: usize)
        ensures
            self@.tx.spec_encode() matches Some(operation) ==> r == (spec_encode_bytes(
                self@.tx_id,
            ) + spec_encode_bytes(self@.address) + operation).len(),
            self@.tx.spec_encode() is None ==> r == 0,
            r <= 132,
    {
        match self.tx {
            ShadowTxType::Diff(_) => 0,
            _ => 54 + self.tx.length(),
        }
    }

    /// The number of bytes of the wire form, or zero where the operation is
    /// a `Diff`, which has none.
    pub fn length(&self) -> (r: usize)
        ensures
            match self@.spec_encode() {
                Some(encoding) => r == encoding.len(),
                None => r == 0,
            },
            r <= 134,
    {
        proof {
            reveal(ShadowTxView::spec_encode);
        }
        match self.tx {
            ShadowTxType::Diff(_) => 0,
            _ => {
                let n = self.payload_length();
                proof {
                    crate::rlp::lemma_short_header(true, n as nat);
                }
                header_length(n) + n
            },
        }
    }

    /// Appends the wire form. A transaction whose operation is a `Diff` has
    /// none: it is refused, and nothing is written.
    pub fn encode(&self, out: &mut Vec<u8>) -> (r: Result<(), EncodeError>)
        ensures
            match self@.spec_encode() {
                Some(encoding) => r is Ok && final(out)@ == old(out)@ + encoding,
                None => r == Err::<(), EncodeError>(EncodeError::NoWireForm) && final(out)@
                    == old(out)@,
            },
    {
        proof {
            reveal(ShadowTxView::spec_encode);
        }
        match self.tx {
            ShadowTxType::Diff(_) => {
                return Err(EncodeError::NoWireForm);
            },
            _ => {},
        }
        encode_header(out, true, self.payload_length());
        encode_bytes(out, self.tx_id.as_slice());
        encode_bytes(out, self.address.as_slice());
        let written = self.tx.encode(out);
        proof {
            assert(out@ =~= old(out)@ + self@.spec_encode()->0);
        }
        written
    }

    /// Reads a transaction from the front of `buf`. Returns it with the
    /// bytes that follow it. What is read is the wire form of what is
    /// returned.
    pub fn decode<'a>(buf: &'a [u8]) -> (r: Result<(Self, &'a [u8]), DecodeError>)
        ensures
            match ShadowTxView::spec_decode(buf@) {
                Ok((value, consumed)) => r matches Ok((x, rest)) && x@ == value && rest@
                    == buf@.skip(consumed as int) && 1 <= consumed <= buf@.len(),
                Err(e) => r == Err::<(Self, &[u8]), DecodeError>(e),
            },
            r matches Ok((x, rest)) ==> x@.spec_encode() == Some(
                buf@.take(buf@.len() - rest@.len()),
            ),
    {
        proof {
            reveal(ShadowTxView::spec_decode);
            ShadowTxView::lemma_decoded_is_canonical(buf@);
        }
        let (payload_length, body) = match decode_list_header(buf) {
            Ok(found) => found,
            Err(e) => {
                return Err(e);
            },
        };
        let (tx_id, after_tx_id) = match decode_fixed::<32>(body) {
            Ok(found) => found,
            Err(e) => {
                return Err(e);
            },
        };
        let (address, after_address) = match decode_fixed::<20>(after_tx_id) {
            Ok(found) => found,
            Err(e) => {
                return Err(e);
            },
        };
        let (tx, rest) = match ShadowTxType::decode(after_address) {
            Ok(found) => found,
            Err(e) => {
                return Err(e);
            },
        };
        proof {
            crate::rlp::lemma_string_fits(body@);
            crate::rlp::lemma_string_fits(after_tx_id@);
            lemma_operation_fits(after_address@);
            crate::rlp::lemma_header_fits(buf@);
        }
        if body.len() - rest.len() != payload_length {
            return Err(DecodeError::ListLengthMismatch);
        }
        proof {
            assert(rest@ =~= buf@.skip((buf@.len() - rest@.len()) as int));
        }
        Ok((ShadowTx { tx_id: TxId(tx_id), address: Address(address), tx }, rest))
    }
}

/// An operation that the decoder accepts lies within the input, and takes
/// at least one byte.
pub proof fn lemma_operation_fits(s: Seq<u8>)
    ensures
        ShadowTxTypeView::spec_decode(s) matches Ok((value, consumed)) ==> 1 <= consumed
            <= s.len(),
{
    reveal(ShadowTxTypeView::spec_decode);
    if s.len() > 0 {
        let body = s.skip(1);
        TransferShadowView::lemma_decode_fits(body);
        DataShadowView::lemma_decode_fits(body);
        MiningAddressPledgeShadowView::lemma_decode_fits(body);
        PartitionPledgeShadowView::lemma_decode_fits(body);
        PartitionUnPledgeShadowView::lemma_decode_fits(body);
        UnpledgeAllShadow::lemma_decode_fits(body);
        SlashShadowView::lemma_decode_fits(body);
    }
}

/// A transaction that the decoder accepts lies within the input, and takes
/// at least one byte.
pub proof fn lemma_transaction_fits(s: Seq<u8>)
    ensures
        ShadowTxView::spec_decode(s) matches Ok((value, consumed)) ==> 1 <= consumed <= s.len(),
{
    reveal(ShadowTxView::spec_decode);
    crate::rlp::lemma_header_fits(s);
}

/// The wire forms of the transactions, one after the other; none where one
/// of them has none.
pub open spec fn spec_encode_items(txs: Seq<ShadowTxView>) -> Option<Seq<u8>>
    decreases txs.len(),
{
    if txs.len() == 0 {
        Some(Seq::empty())
    } else {
        match (spec_encode_items(txs.drop_last()), txs.last().spec_encode()) {
            (Some(earlier), Some(last)) => Some(earlier + last),
            _ => None,
        }
    }
}

/// The transactions whose wire forms fill `payload`, or why there are
/// none.
pub open spec fn spec_decode_items(payload: Seq<u8>) -> Result<Seq<ShadowTxView>, DecodeError>
    decreases payload.len(),
{
    if payload.len() == 0 {
        Ok(Seq::empty())
    } else {
        match ShadowTxView::spec_decode(payload) {
            Err(e) => Err(e),
            Ok((first, consumed)) => {
                proof {
                    lemma_transaction_fits(payload);
                }
                match spec_decode_items(payload.skip(consumed as int)) {
                    Err(e) => Err(e),
                    Ok(others) => Ok(seq![first] + others),
                }
            },
        }
    }
}

/// The wire form of a block's shadow transactions: the list of their wire
/// forms.
pub open spec fn spec_encode_shadows(txs: Seq<ShadowTxView>) -> Option<Seq<u8>> {
    match spec_encode_items(txs) {
        Some(payload) => Some(spec_encode_list(payload)),
        None => None,
    }
}

/// The shadow transactions at the front of `s` and the number of bytes
/// that their list takes, or why there are none.
pub open spec fn spec_decode_shadows(s: Seq<u8>) -> Result<(Seq<ShadowTxView>, nat), DecodeError> {
    match spec_decode_list_header(s) {
        Err(e) => Err(e),
        Ok((payload_length, header_length)) => match spec_decode_items(
            s.subrange(header_length as int, (header_length + payload_length) as int),
        ) {
            Err(e) => Err(e),
            Ok(txs) => Ok((txs, header_length + payload_length)),
        },
    }
}

/// Whether every transaction is valid and has a wire form.
pub open spec fn all_encodable(txs: Seq<ShadowTxView>) -> bool {
    forall|i: int| 0 <= i < txs.len() ==> (#[trigger] txs[i]).valid() && !(txs[i].tx is Diff)
}

/// The wire forms of transactions that all have one start with the wire
/// form of the first.
pub proof fn lemma_encode_items_front(txs: Seq<ShadowTxView>)
    requires
        txs.len() > 0,
        all_encodable(txs),
    ensures
        spec_encode_items(txs) is Some,
        spec_encode_items(txs.drop_first()) is Some,
        txs[0].spec_encode() is Some,
        spec_encode_items(txs)->0 == txs[0].spec_encode()->0 + spec_encode_items(
            txs.drop_first(),
        )->0,
    decreases txs.len(),
{
    txs[0].lemma_round_trip(Seq::empty());
    txs.last().lemma_round_trip(Seq::empty());
    if txs.len() == 1 {
        assert(txs.drop_last() =~= Seq::<ShadowTxView>::empty());
        assert(txs.drop_first() =~= Seq::<ShadowTxView>::empty());
        assert(spec_encode_items(txs)->0 =~= txs[0].spec_encode()->0);
    } else {
        let shorter = txs.drop_last();
        assert(all_encodable(shorter)) by {
            assert forall|i: int| 0 <= i < shorter.len() implies (#[trigger] shorter[i]).valid()
                && !(shorter[i].tx is Diff) by {
                assert(shorter[i] == txs[i]);
            }
        }
        lemma_encode_items_front(shorter);
        let tail = txs.drop_first();
        assert(tail.drop_last() =~= shorter.drop_first());
        assert(tail.last() == txs.last());
        assert(shorter[0] == txs[0]);
        let first = txs[0].spec_encode()->0;
        let middle = spec_encode_items(shorter.drop_first())->0;
        let last = txs.last().spec_encode()->0;
        assert((first + middle) + last =~= first + (middle + last));
    }
}

/// Transactions that all have a wire form are read back from their wire
/// forms, written one after the other.
pub proof fn lemma_items_round_trip(txs: Seq<ShadowTxView>)
    requires
        all_encodable(txs),
    ensures
        spec_encode_items(txs) is Some,
        spec_decode_items(spec_encode_items(txs)->0) == Ok::<Seq<ShadowTxView>, DecodeError>(
            txs,
        ),
    decreases txs.len(),
{
    if txs.len() == 0 {
        assert(txs =~= Seq::<ShadowTxView>::empty());
    } else {
        lemma_encode_items_front(txs);
        let tail = txs.drop_first();
        assert(all_encodable(tail)) by {
            assert forall|i: int| 0 <= i < tail.len() implies (#[trigger] tail[i]).valid() && !(
            tail[i].tx is Diff) by {
                assert(tail[i] == txs[i + 1]);
            }
        }
        lemma_items_round_trip(tail);
        let first = txs[0].spec_encode()->0;
        let others = spec_encode_items(tail)->0;
        txs[0].lemma_round_trip(others);
        let payload = spec_encode_items(txs)->0;
        assert(payload == first + others);
        assert(payload.len() > 0);
        assert(payload.skip(first.len() as int) =~= others);
        assert(seq![txs[0]] + tail =~= txs);
        assert(spec_decode_items(payload) == match spec_decode_items(
            payload.skip(first.len() as int),
        ) {
            Err(e) => Err(e),
            Ok(found) => Ok(seq![txs[0]] + found),
        });
    }
}

/// A block's shadow transactions that all have a wire form are read back
/// from the wire form of their list, whatever follows.
pub proof fn lemma_shadows_round_trip(txs: Seq<ShadowTxView>, rest: Seq<u8>)
    requires
        all_encodable(txs),
        spec_encode_items(txs) matches Some(payload) && payload.len() < length_limit(),
    ensures
        spec_encode_shadows(txs) is Some,
        spec_decode_shadows(spec_encode_shadows(txs)->0 + rest) == Ok::<
            (Seq<ShadowTxView>, nat),
            DecodeError,
        >((txs, spec_encode_shadows(txs)->0.len())),
{
    lemma_items_round_trip(txs);
    let payload = spec_encode_items(txs)->0;
    let header = spec_header(true, payload.len());
    let s = spec_encode_shadows(txs)->0 + rest;
    lemma_decode_list_header_of_encoding(payload, rest);
    assert(s.subrange(header.len() as int, (header.len() + payload.len()) as int) =~= payload);
}

/// Transactions that the decoder finds in a payload all have a wire form,
/// and the payload is their wire forms, one after the other.
pub proof fn lemma_decoded_items_are_canonical(payload: Seq<u8>)
    ensures
        spec_decode_items(payload) matches Ok(txs) ==> all_encodable(txs) && spec_encode_items(
            txs,
        ) == Some(payload),
    decreases payload.len(),
{
    if let Ok(txs) = spec_decode_items(payload) {
        if payload.len() == 0 {
            assert(spec_encode_items(txs)->0 =~= payload);
        } else {
            lemma_transaction_fits(payload);
            ShadowTxView::lemma_decoded_is_canonical(payload);
            let (first, consumed) = ShadowTxView::spec_decode(payload)->Ok_0;
            let tail = payload.skip(consumed as int);
            lemma_decoded_items_are_canonical(tail);
            let others = spec_decode_items(tail)->Ok_0;
            assert(txs == seq![first] + others);
            assert(txs.drop_first() =~= others);
            assert(all_encodable(txs)) by {
                assert forall|i: int| 0 <= i < txs.len() implies (#[trigger] txs[i]).valid() && !(
                txs[i].tx is Diff) by {
                    if i > 0 {
                        assert(txs[i] == others[i - 1]);
                    }
                }
            }
            lemma_encode_items_front(txs);
            assert(spec_encode_items(txs)->0 =~= payload.take(consumed as int) + tail);
            assert(payload.take(consumed as int) + tail =~= payload);
        }
    }
}

/// A block's shadow transactions that the decoder accepts are written in
/// the one form that the encoder produces.
pub proof fn lemma_decoded_shadows_are_canonical(s: Seq<u8>)
    ensures
        spec_decode_shadows(s) matches Ok((txs, consumed)) ==> all_encodable(txs)
            && spec_encode_shadows(txs) == Some(s.take(consumed as int)),
{
    lemma_decoded_list_header_is_canonical(s);
    if let Ok((txs, consumed)) = spec_decode_shadows(s) {
        let (payload_length, header_length) = spec_decode_list_header(s)->Ok_0;
        let payload = s.subrange(
            header_length as int,
            (header_length + payload_length) as int,
        );
        lemma_decoded_items_are_canonical(payload);
        assert(s.take(consumed as int) =~= s.take(header_length as int) + payload);
        assert(spec_encode_shadows(txs)->0 =~= s.take(consumed as int));
    }
}

/// Transactions of which one has no wire form have none together.
pub proof fn lemma_encode_items_none(txs: Seq<ShadowTxView>, i: int)
    requires
        0 <= i < txs.len(),
        txs[i].spec_encode() is None,
    ensures
        spec_encode_items(txs) is None,
    decreases txs.len(),
{
    if i < txs.len() - 1 {
        assert(txs.drop_last()[i] == txs[i]);
        lemma_encode_items_none(txs.drop_last(), i);
    }
}

/// The wire forms of the first transactions are no longer than those of
/// all of them.
pub proof fn lemma_encode_items_prefix(txs: Seq<ShadowTxView>, i: int)
    requires
        0 <= i <= txs.len(),
        spec_encode_items(txs) is Some,
    ensures
        spec_encode_items(txs.take(i)) is Some,
        spec_encode_items(txs.take(i))->0.len() <= spec_encode_items(txs)->0.len(),
    decreases txs.len() - i,
{
    if i == txs.len() {
        assert(txs.take(i) =~= txs);
    } else {
        lemma_encode_items_prefix(txs.drop_last(), i);
        assert(txs.drop_last().take(i) =~= txs.take(i));
    }
}

/// The transactions `prefix` in front of those that were read, where
/// reading succeeded.
pub open spec fn spec_prepend(
    prefix: Seq<ShadowTxView>,
    read: Result<Seq<ShadowTxView>, DecodeError>,
) -> Result<Seq<ShadowTxView>, DecodeError> {
    match read {
        Ok(txs) => Ok(prefix + txs),
        Err(e) => Err(e),
    }
}

impl Shadows {
    /// Whether every transaction has a wire form.
    fn all_have_wire_form(&self) -> (r: bool)
        ensures
            r == spec_encode_items(self@) is Some,
    {
        let mut i: usize = 0;
        proof {
            assert(self@.take(0) =~= Seq::<ShadowTxView>::empty());
        }
        while i < self.len()
            invariant
                i <= self@.len(),
                spec_encode_items(self@.take(i as int)) is Some,
            decreases self@.len() - i,
        {
            let tx = self.get(i);
            proof {
                reveal(ShadowTxView::spec_encode);
                assert(self@.take(i + 1).drop_last() =~= self@.take(i as int));
                assert(self@.take(i + 1).last() == self@[i as int]);
            }
            match tx.tx {
                ShadowTxType::Diff(_) => {
                    proof {
                        lemma_encode_items_none(self@, i as int);
                    }
                    return false;
                },
                _ => {},
            }
            i = i + 1;
        }
        proof {
            assert(self@.take(self@.len() as int) =~= self@);
        }
        true
    }

    /// The number of bytes of the transactions' wire forms together.
    fn payload_length(&self) -> (r: Result<usize, EncodeError>)
        ensures
            match spec_encode_items(self@) {
                None => r == Err::<usize, EncodeError>(EncodeError::NoWireForm),
                Some(payload) => if payload.len() <= usize::MAX {
                    r == Ok::<usize, EncodeError>(payload.len() as usize)
                } else {
                    r == Err::<usize, EncodeError>(EncodeError::TooLong)
                },
            },
    {
        if !self.all_have_wire_form() {
            return Err(EncodeError::NoWireForm);
        }
        let mut total: usize = 0;
        let mut i: usize = 0;
        proof {
            assert(self@.take(0) =~= Seq::<ShadowTxView>::empty());
        }
        while i < self.len()
            invariant
                i <= self@.len(),
                spec_encode_items(self@) is Some,
                spec_encode_items(self@.take(i as int)) is Some,
                total == spec_encode_items(self@.take(i as int))->0.len(),
            decreases self@.len() - i,
        {
            let n = self.get(i).length();
            proof {
                lemma_encode_items_prefix(self@, i + 1);
                assert(self@.take(i + 1).drop_last() =~= self@.take(i as int));
                assert(self@.take(i + 1).last() == self@[i as int]);
            }
            total = match total.checked_add(n) {
                Some(sum) => sum,
                None => {
                    return Err(EncodeError::TooLong);
                },
            };
            i = i + 1;
        }
        proof {
            assert(self@.take(self@.len() as int) =~= self@);
        }
        Ok(total)
    }

    /// The number of bytes of the wire form. It is refused where a
    /// transaction is a `Diff`, which has no wire form, and else where it
    /// has more bytes than a length can count.
    pub fn length(&self) -> (r: Result<usize, EncodeError>)
        ensures
            match spec_encode_shadows(self@) {
                None => r == Err::<usize, EncodeError>(EncodeError::NoWireForm),
                Some(encoding) => if encoding.len() <= usize::MAX {
                    r == Ok::<usize, EncodeError>(encoding.len() as usize)
                } else {
                    r == Err::<usize, EncodeError>(EncodeError::TooLong)
                },
            },
    {
        let n = match self.payload_length() {
            Ok(n) => n,
            Err(e) => {
                return Err(e);
            },
        };
        match header_length(n).checked_add(n) {
            Some(total) => Ok(total),
            None => Err(EncodeError::TooLong),
        }
    }

    /// Appends the wire form: the list of the transactions' wire forms,
    /// in their order. Where `length` is refused this is refused for the
    /// same reason, and nothing is written.
    pub fn encode(&self, out: &mut Vec<u8>) -> (r: Result<(), EncodeError>)
        ensures
            match spec_encode_shadows(self@) {
                None => r == Err::<(), EncodeError>(EncodeError::NoWireForm) && final(out)@
                    == old(out)@,
                Some(encoding) => if encoding.len() <= usize::MAX {
                    r is Ok && final(out)@ == old(out)@ + encoding
                } else {
                    r == Err::<(), EncodeError>(EncodeError::TooLong) && final(out)@ == old(
                        out,
                    )@
                },
            },
    {
        let n = match self.payload_length() {
            Ok(n) => n,
            Err(e) => {
                return Err(e);
            },
        };
        if header_length(n).checked_add(n).is_none() {
            return Err(EncodeError::TooLong);
        }
        encode_header(out, true, n);
        let ghost header = spec_header(true, n as nat);
        let mut i: usize = 0;
        proof {
            assert(self@.take(0) =~= Seq::<ShadowTxView>::empty());
            assert(out@ =~= old(out)@ + header + Seq::<u8>::empty());
        }
        while i < self.len()
            invariant
                i <= self@.len(),
                spec_encode_items(self@) is Some,
                spec_encode_items(self@.take(i as int)) is Some,
                out@ == old(out)@ + header + spec_encode_items(self@.take(i as int))->0,
            decreases self@.len() - i,
        {
            let ghost before = out@;
            proof {
                lemma_encode_items_prefix(self@, i + 1);
                assert(self@.take(i + 1).drop_last() =~= self@.take(i as int));
                assert(self@.take(i + 1).last() == self@[i as int]);
            }
            match self.get(i).encode(out) {
                Ok(()) => {},
                Err(e) => {
                    return Err(e);
                },
            }
            proof {
                let earlier = spec_encode_items(self@.take(i as int))->0;
                let this = self@[i as int].spec_encode()->0;
                assert(out@ =~= old(out)@ + header + (earlier + this));
            }
            i = i + 1;
        }
        proof {
            assert(self@.take(self@.len() as int) =~= self@);
            assert(out@ =~= old(out)@ + spec_encode_shadows(self@)->0);
        }
        Ok(())
    }

    /// Reads a block's shadow transactions from the front of `buf`.
    /// Returns them with the bytes that follow their list. What is read is
    /// the wire form of what is returned.
    pub fn decode<'a>(buf: &'a [u8]) -> (r: Result<(Self, &'a [u8]), DecodeError>)
        ensures
            match spec_decode_shadows(buf@) {
                Ok((txs, consumed)) => r matches Ok((x, rest)) && x@ == txs && rest@
                    == buf@.skip(consumed as int),
                Err(e) => r == Err::<(Self, &[u8]), DecodeError>(e),
            },
            r matches Ok((x, rest)) ==> spec_encode_shadows(x@) == Some(
                buf@.take(buf@.len() - rest@.len()),
            ),
    {
        proof {
            lemma_decoded_shadows_are_canonical(buf@);
        }
        let (payload_length, body) = match decode_list_header(buf) {
            Ok(found) => found,
            Err(e) => {
                return Err(e);
            },
        };
        let payload = vstd::slice::slice_subrange(body, 0, payload_length);
        let rest = slice_from(body, payload_length);
        let ghost header_length = spec_decode_list_header(buf@)->Ok_0.1;
        proof {
            crate::rlp::lemma_header_fits(buf@);
            assert(payload@ =~= buf@.subrange(
                header_length as int,
                (header_length + payload_length) as int,
            ));
            assert(rest@ =~= buf@.skip((header_length + payload_length) as int));
        }
        let mut items: Vec<ShadowTx> = Vec::new();
        let mut remaining = payload;
        proof {
            assert(shadow_views(items@) =~= Seq::<ShadowTxView>::empty());
            match spec_decode_items(remaining@) {
                Ok(txs) => {
                    assert(Seq::<ShadowTxView>::empty() + txs =~= txs);
                },
                Err(_) => {},
            }
        }
        while remaining.len() > 0
            invariant
                spec_decode_list_header(buf@) == Ok::<(nat, nat), DecodeError>(
                    (payload_length as nat, header_length),
                ),
                payload@ == buf@.subrange(
                    header_length as int,
                    (header_length + payload_length) as int,
                ),
                rest@ == buf@.skip((header_length + payload_length) as int),
                spec_decode_items(payload@) == spec_prepend(
                    shadow_views(items@),
                    spec_decode_items(remaining@),
                ),
            decreases remaining@.len(),
        {
            let ghost read = shadow_views(items@);
            let ghost input = remaining@;
            match ShadowTx::decode(remaining) {
                Ok((tx, after)) => {
                    proof {
                        match spec_decode_items(after@) {
                            Ok(others) => {
                                assert(read + (seq![tx@] + others) =~= read.push(tx@) + others);
                            },
                            Err(_) => {},
                        }
                    }
                    items.push(tx);
                    proof {
                        assert(shadow_views(items@) =~= read.push(tx@));
                    }
                    remaining = after;
                },
                Err(e) => {
                    return Err(e);
                },
            }
        }
        proof {
            assert(shadow_views(items@) + Seq::<ShadowTxView>::empty() =~= shadow_views(items@));
        }
        Ok((Shadows::new(items), rest))
    }
}

} // verus!
