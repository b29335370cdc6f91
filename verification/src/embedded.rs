//! The dictionaries that come with the library: the session layer and the core of the order
//! flow of each supported FIX version.
use vstd::prelude::*;

verus! {

pub const FIX40_XML: &'static str = "<fix type='FIX' major='4' minor='0' servicepack='0'><header><field name='BeginString' required='Y'/><field name='BodyLength' required='Y'/><field name='MsgType' required='Y'/><field name='SenderCompID' required='Y'/><field name='TargetCompID' required='Y'/><field name='OnBehalfOfCompID' required='N'/><field name='DeliverToCompID' required='N'/><field name='MsgSeqNum' required='Y'/><field name='SenderSubID' required='N'/><field name='TargetSubID' required='N'/><field name='PossDupFlag' required='N'/><field name='PossResend' required='N'/><field name='SendingTime' required='Y'/><field name='OrigSendingTime' required='N'/></header><messages>\
<message name='Heartbeat' msgtype='0' msgcat='admin'><field name='TestReqID' required='N'/></message>\
<message name='TestRequest' msgtype='1' msgcat='admin'><field name='TestReqID' required='Y'/></message>\
<message name='ResendRequest' msgtype='2' msgcat='admin'><field name='BeginSeqNo' required='Y'/><field name='EndSeqNo' required='Y'/></message>\
<message name='Reject' msgtype='3' msgcat='admin'><field name='RefSeqNum' required='Y'/><field name='RefTagID' required='N'/><field name='RefMsgType' required='N'/><field name='SessionRejectReason' required='N'/><field name='Text' required='N'/></message>\
<message name='SequenceReset' msgtype='4' msgcat='admin'><field name='GapFillFlag' required='N'/><field name='NewSeqNo' required='Y'/></message>\
<message name='Logout' msgtype='5' msgcat='admin'><field name='Text' required='N'/></message>\
<message name='Logon' msgtype='A' msgcat='admin'><field name='EncryptMethod' required='Y'/><field name='HeartBtInt' required='Y'/><field name='ResetSeqNumFlag' required='N'/></message>\
<message name='ExecutionReport' msgtype='8' msgcat='app'><field name='OrderID' required='Y'/><field name='ClOrdID' required='N'/><field name='OrigClOrdID' required='N'/><field name='ExecID' required='Y'/><field name='ExecTransType' required='Y'/><field name='OrdStatus' required='Y'/><field name='Account' required='N'/><field name='Symbol' required='Y'/><field name='SecurityID' required='N'/><field name='Side' required='Y'/><field name='OrderQty' required='N'/><field name='OrdType' required='N'/><field name='Price' required='N'/><field name='Currency' required='N'/><field name='LastQty' required='N'/><field name='LastPx' required='N'/><field name='LeavesQty' required='Y'/><field name='CumQty' required='Y'/><field name='AvgPx' required='Y'/><field name='TradeDate' required='N'/><field name='TransactTime' required='N'/><field name='SettlType' required='N'/><field name='SettlDate' required='N'/><field name='Text' required='N'/></message>\
<message name='OrderCancelReject' msgtype='9' msgcat='app'><field name='OrderID' required='Y'/><field name='ClOrdID' required='Y'/><field name='OrigClOrdID' required='Y'/><field name='OrdStatus' required='Y'/><field name='CxlRejResponseTo' required='N'/><field name='CxlRejReason' required='N'/><field name='Text' required='N'/></message>\
<message name='NewOrderSingle' msgtype='D' msgcat='app'><field name='ClOrdID' required='Y'/><field name='Account' required='N'/><field name='SettlType' required='N'/><field name='SettlDate' required='N'/><field name='HandlInst' required='N'/><field name='Symbol' required='Y'/><field name='SecurityID' required='N'/><field name='Side' required='Y'/><field name='TransactTime' required='Y'/><field name='OrderQty' required='N'/><field name='OrdType' required='Y'/><field name='Price' required='N'/><field name='Currency' required='N'/><field name='TimeInForce' required='N'/><field name='TradeDate' required='N'/><field name='Text' required='N'/></message>\
<message name='OrderCancelRequest' msgtype='F' msgcat='app'><field name='OrigClOrdID' required='Y'/><field name='OrderID' required='N'/><field name='ClOrdID' required='Y'/><field name='Symbol' required='Y'/><field name='SecurityID' required='N'/><field name='Side' required='Y'/><field name='TransactTime' required='Y'/><field name='OrderQty' required='N'/><field name='Text' required='N'/></message>\
<message name='OrderCancelReplaceRequest' msgtype='G' msgcat='app'><field name='OrderID' required='N'/><field name='OrigClOrdID' required='Y'/><field name='ClOrdID' required='Y'/><field name='HandlInst' required='N'/><field name='Symbol' required='Y'/><field name='SecurityID' required='N'/><field name='Side' required='Y'/><field name='TransactTime' required='Y'/><field name='OrderQty' required='N'/><field name='OrdType' required='Y'/><field name='Price' required='N'/><field name='Text' required='N'/></message>\
<message name='AllocationInstruction' msgtype='J' msgcat='app'><field name='AllocID' required='Y'/><field name='AllocTransType' required='Y'/><field name='AllocType' required='N'/><field name='AllocNoOrdersType' required='N'/><group name='NoOrders' required='N'><field name='ClOrdID' required='N'/><field name='OrderID' required='N'/></group><field name='Side' required='Y'/><field name='Symbol' required='Y'/><field name='SecurityID' required='N'/><field name='OrderQty' required='N'/><field name='AvgPx' required='Y'/><field name='TradeDate' required='Y'/><field name='Text' required='N'/></message></messages>\
<trailer><field name='SignatureLength' required='N'/><field name='Signature' required='N'/><field name='CheckSum' required='Y'/></trailer>\
<components/>\
<fields>\
<field number='1' name='Account' type='STRING'/>\
<field number='6' name='AvgPx' type='PRICE'/>\
<field number='7' name='BeginSeqNo' type='SEQNUM'/>\
<field number='8' name='BeginString' type='STRING'/>\
<field number='9' name='BodyLength' type='LENGTH'/>\
<field number='10' name='CheckSum' type='STRING'/>\
<field number='11' name='ClOrdID' type='STRING'/>\
<field number='14' name='CumQty' type='QTY'/>\
<field number='15' name='Currency' type='CURRENCY'/>\
<field number='16' name='EndSeqNo' type='SEQNUM'/>\
<field number='17' name='ExecID' type='STRING'/>\
<field number='20' name='ExecTransType' type='CHAR'><value enum='0' description='NEW'/><value enum='1' description='CANCEL'/><value enum='2' description='CORRECT'/><value enum='3' description='STATUS'/></field>\
<field number='21' name='HandlInst' type='CHAR'><value enum='1' description='AUTOMATED_EXECUTION_ORDER_PRIVATE'/><value enum='2' description='AUTOMATED_EXECUTION_ORDER_PUBLIC'/><value enum='3' description='MANUAL_ORDER'/></field>\
<field number='31' name='LastPx' type='PRICE'/>\
<field number='32' name='LastQty' type='QTY'/>\
<field number='34' name='MsgSeqNum' type='SEQNUM'/>\
<field number='35' name='MsgType' type='STRING'><value enum='0' description='HEARTBEAT'/><value enum='1' description='TEST_REQUEST'/><value enum='2' description='RESEND_REQUEST'/><value enum='3' description='REJECT'/><value enum='4' description='SEQUENCE_RESET'/><value enum='5' description='LOGOUT'/><value enum='8' description='EXECUTION_REPORT'/><value enum='9' description='ORDER_CANCEL_REJECT'/><value enum='A' description='LOGON'/><value enum='D' description='NEW_ORDER_SINGLE'/><value enum='F' description='ORDER_CANCEL_REQUEST'/><value enum='G' description='ORDER_CANCEL_REPLACE_REQUEST'/><value enum='J' description='ALLOCATION_INSTRUCTION'/></field>\
<field number='36' name='NewSeqNo' type='SEQNUM'/>\
<field number='37' name='OrderID' type='STRING'/>\
<field number='38' name='OrderQty' type='QTY'/>\
<field number='39' name='OrdStatus' type='CHAR'><value enum='0' description='NEW'/><value enum='1' description='PARTIALLY_FILLED'/><value enum='2' description='FILLED'/><value enum='3' description='DONE_FOR_DAY'/><value enum='4' description='CANCELED'/><value enum='5' description='REPLACED'/><value enum='6' description='PENDING_CANCEL'/><value enum='7' description='STOPPED'/><value enum='8' description='REJECTED'/><value enum='9' description='SUSPENDED'/><value enum='A' description='PENDING_NEW'/><value enum='B' description='CALCULATED'/><value enum='C' description='EXPIRED'/><value enum='D' description='ACCEPTED_FOR_BIDDING'/><value enum='E' description='PENDING_REPLACE'/></field>\
<field number='40' name='OrdType' type='CHAR'><value enum='1' description='MARKET'/><value enum='2' description='LIMIT'/><value enum='3' description='STOP'/><value enum='4' description='STOP_LIMIT'/></field>\
<field number='41' name='OrigClOrdID' type='STRING'/>\
<field number='43' name='PossDupFlag' type='BOOLEAN'><value enum='N' description='ORIGINAL_TRANSMISSION'/><value enum='Y' description='POSSIBLE_DUPLICATE'/></field>\
<field number='44' name='Price' type='PRICE'/>\
<field number='45' name='RefSeqNum' type='SEQNUM'/>\
<field number='48' name='SecurityID' type='STRING'/>\
<field number='49' name='SenderCompID' type='STRING'/>\
<field number='50' name='SenderSubID' type='STRING'/>\
<field number='52' name='SendingTime' type='UTCTIMESTAMP'/>\
<field number='54' name='Side' type='CHAR'><value enum='1' description='BUY'/><value enum='2' description='SELL'/><value enum='3' description='BUY_MINUS'/><value enum='4' description='SELL_PLUS'/><value enum='5' description='SELL_SHORT'/></field>\
<field number='55' name='Symbol' type='STRING'/>\
<field number='56' name='TargetCompID' type='STRING'/>\
<field number='57' name='TargetSubID' type='STRING'/>\
<field number='58' name='Text' type='STRING'/>\
<field number='59' name='TimeInForce' type='CHAR'><value enum='0' description='DAY'/><value enum='1' description='GOOD_TILL_CANCEL'/><value enum='3' description='IMMEDIATE_OR_CANCEL'/><value enum='4' description='FILL_OR_KILL'/></field>\
<field number='60' name='TransactTime' type='UTCTIMESTAMP'/>\
<field number='63' name='SettlType' type='CHAR'/>\
<field number='64' name='SettlDate' type='LOCALMKTDATE'/>\
<field number='70' name='AllocID' type='STRING'/>\
<field number='71' name='AllocTransType' type='CHAR'><value enum='0' description='NEW'/><value enum='1' description='REPLACE'/><value enum='2' description='CANCEL'/></field>\
<field number='73' name='NoOrders' type='NUMINGROUP'/>\
<field number='75' name='TradeDate' type='LOCALMKTDATE'/>\
<field number='89' name='Signature' type='DATA'/>\
<field number='93' name='SignatureLength' type='LENGTH'/>\
<field number='97' name='PossResend' type='BOOLEAN'/>\
<field number='98' name='EncryptMethod' type='INT'><value enum='0' description='NONE_OTHER'/><value enum='1' description='PKCS'/></field>\
<field number='102' name='CxlRejReason' type='INT'><value enum='0' description='TOO_LATE_TO_CANCEL'/><value enum='1' description='UNKNOWN_ORDER'/></field>\
<field number='108' name='HeartBtInt' type='INT'/>\
<field number='112' name='TestReqID' type='STRING'/>\
<field number='115' name='OnBehalfOfCompID' type='STRING'/>\
<field number='122' name='OrigSendingTime' type='UTCTIMESTAMP'/>\
<field number='123' name='GapFillFlag' type='BOOLEAN'/>\
<field number='128' name='DeliverToCompID' type='STRING'/>\
<field number='141' name='ResetSeqNumFlag' type='BOOLEAN'/>\
<field number='151' name='LeavesQty' type='QTY'/>\
<field number='371' name='RefTagID' type='INT'/>\
<field number='372' name='RefMsgType' type='STRING'/>\
<field number='373' name='SessionRejectReason' type='INT'><value enum='0' description='INVALID_TAG_NUMBER'/><value enum='1' description='REQUIRED_TAG_MISSING'/></field>\
<field number='434' name='CxlRejResponseTo' type='CHAR'><value enum='1' description='ORDER_CANCEL_REQUEST'/><value enum='2' description='ORDER_CANCEL_REPLACE_REQUEST'/></field>\
<field number='626' name='AllocType' type='INT'><value enum='1' description='CALCULATED'/><value enum='2' description='PRELIMINARY'/></field>\
<field number='857' name='AllocNoOrdersType' type='INT'><value enum='0' description='NOT_SPECIFIED'/><value enum='1' description='EXPLICIT_LIST_PROVIDED'/></field></fields></fix>";

pub const FIX41_XML: &'static str = "<fix type='FIX' major='4' minor='1' servicepack='0'><header><field name='BeginString' required='Y'/><field name='BodyLength' required='Y'/><field name='MsgType' required='Y'/><field name='SenderCompID' required='Y'/><field name='TargetCompID' required='Y'/><field name='OnBehalfOfCompID' required='N'/><field name='DeliverToCompID' required='N'/><field name='MsgSeqNum' required='Y'/><field name='SenderSubID' required='N'/><field name='TargetSubID' required='N'/><field name='PossDupFlag' required='N'/><field name='PossResend' required='N'/><field name='SendingTime' required='Y'/><field name='OrigSendingTime' required='N'/></header><messages>\
<message name='Heartbeat' msgtype='0' msgcat='admin'><field name='TestReqID' required='N'/></message>\
<message name='TestRequest' msgtype='1' msgcat='admin'><field name='TestReqID' required='Y'/></message>\
<message name='ResendRequest' msgtype='2' msgcat='admin'><field name='BeginSeqNo' required='Y'/><field name='EndSeqNo' required='Y'/></message>\
<message name='Reject' msgtype='3' msgcat='admin'><field name='RefSeqNum' required='Y'/><field name='RefTagID' required='N'/><field name='RefMsgType' required='N'/><field name='SessionRejectReason' required='N'/><field name='Text' required='N'/></message>\
<message name='SequenceReset' msgtype='4' msgcat='admin'><field name='GapFillFlag' required='N'/><field name='NewSeqNo' required='Y'/></message>\
<message name='Logout' msgtype='5' msgcat='admin'><field name='Text' required='N'/></message>\
<message name='Logon' msgtype='A' msgcat='admin'><field name='EncryptMethod' required='Y'/><field name='HeartBtInt' required='Y'/><field name='ResetSeqNumFlag' required='N'/></message>\
<message name='ExecutionReport' msgtype='8' msgcat='app'><field name='OrderID' required='Y'/><field name='ClOrdID' required='N'/><field name='OrigClOrdID' required='N'/><field name='ExecID' required='Y'/><field name='ExecTransType' required='Y'/><field name='ExecType' required='Y'/><field name='OrdStatus' required='Y'/><field name='Account' required='N'/><field name='Symbol' required='Y'/><field name='SecurityID' required='N'/><field name='Side' required='Y'/><field name='OrderQty' required='N'/><field name='OrdType' required='N'/><field name='Price' required='N'/><field name='Currency' required='N'/><field name='LastQty' required='N'/><field name='LastPx' required='N'/><field name='LeavesQty' required='Y'/><field name='CumQty' required='Y'/><field name='AvgPx' required='Y'/><field name='TradeDate' required='N'/><field name='TransactTime' required='N'/><field name='SettlType' required='N'/><field name='SettlDate' required='N'/><field name='Text' required='N'/></message>\
<message name='OrderCancelReject' msgtype='9' msgcat='app'><field name='OrderID' required='Y'/><field name='ClOrdID' required='Y'/><field name='OrigClOrdID' required='Y'/><field name='OrdStatus' required='Y'/><field name='CxlRejResponseTo' required='N'/><field name='CxlRejReason' required='N'/><field name='Text' required='N'/></message>\
<message name='NewOrderSingle' msgtype='D' msgcat='app'><field name='ClOrdID' required='Y'/><field name='Account' required='N'/><field name='SettlType' required='N'/><field name='SettlDate' required='N'/><field name='HandlInst' required='N'/><field name='Symbol' required='Y'/><field name='SecurityID' required='N'/><field name='Side' required='Y'/><field name='TransactTime' required='Y'/><field name='OrderQty' required='N'/><field name='OrdType' required='Y'/><field name='Price' required='N'/><field name='Currency' required='N'/><field name='TimeInForce' required='N'/><field name='TradeDate' required='N'/><field name='Text' required='N'/></message>\
<message name='OrderCancelRequest' msgtype='F' msgcat='app'><field name='OrigClOrdID' required='Y'/><field name='OrderID' required='N'/><field name='ClOrdID' required='Y'/><field name='Symbol' required='Y'/><field name='SecurityID' required='N'/><field name='Side' required='Y'/><field name='TransactTime' required='Y'/><field name='OrderQty' required='N'/><field name='Text' required='N'/></message>\
<message name='OrderCancelReplaceRequest' msgtype='G' msgcat='app'><field name='OrderID' required='N'/><field name='OrigClOrdID' required='Y'/><field name='ClOrdID' required='Y'/><field name='HandlInst' required='N'/><field name='Symbol' required='Y'/><field name='SecurityID' required='N'/><field name='Side' required='Y'/><field name='TransactTime' required='Y'/><field name='OrderQty' required='N'/><field name='OrdType' required='Y'/><field name='Price' required='N'/><field name='Text' required='N'/></message>\
<message name='AllocationInstruction' msgtype='J' msgcat='app'><field name='AllocID' required='Y'/><field name='AllocTransType' required='Y'/><field name='AllocType' required='N'/><field name='AllocNoOrdersType' required='N'/><group name='NoOrders' required='N'><field name='ClOrdID' required='N'/><field name='OrderID' required='N'/></group><field name='Side' required='Y'/><field name='Symbol' required='Y'/><field name='SecurityID' required='N'/><field name='OrderQty' required='N'/><field name='AvgPx' required='Y'/><field name='TradeDate' required='Y'/><field name='Text' required='N'/></message></messages>\
<trailer><field name='SignatureLength' required='N'/><field name='Signature' required='N'/><field name='CheckSum' required='Y'/></trailer>\
<components/>\
<fields>\
<field number='1' name='Account' type='STRING'/>\
<field number='6' name='AvgPx' type='PRICE'/>\
<field number='7' name='BeginSeqNo' type='SEQNUM'/>\
<field number='8' name='BeginString' type='STRING'/>\
<field number='9' name='BodyLength' type='LENGTH'/>\
<field number='10' name='CheckSum' type='STRING'/>\
<field number='11' name='ClOrdID' type='STRING'/>\
<field number='14' name='CumQty' type='QTY'/>\
<field number='15' name='Currency' type='CURRENCY'/>\
<field number='16' name='EndSeqNo' type='SEQNUM'/>\
<field number='17' name='ExecID' type='STRING'/>\
<field number='20' name='ExecTransType' type='CHAR'><value enum='0' description='NEW'/><value enum='1' description='CANCEL'/><value enum='2' description='CORRECT'/><value enum='3' description='STATUS'/></field>\
<field number='21' name='HandlInst' type='CHAR'><value enum='1' description='AUTOMATED_EXECUTION_ORDER_PRIVATE'/><value enum='2' description='AUTOMATED_EXECUTION_ORDER_PUBLIC'/><value enum='3' description='MANUAL_ORDER'/></field>\
<field number='31' name='LastPx' type='PRICE'/>\
<field number='32' name='LastQty' type='QTY'/>\
<field number='34' name='MsgSeqNum' type='SEQNUM'/>\
<field number='35' name='MsgType' type='STRING'><value enum='0' description='HEARTBEAT'/><value enum='1' description='TEST_REQUEST'/><value enum='2' description='RESEND_REQUEST'/><value enum='3' description='REJECT'/><value enum='4' description='SEQUENCE_RESET'/><value enum='5' description='LOGOUT'/><value enum='8' description='EXECUTION_REPORT'/><value enum='9' description='ORDER_CANCEL_REJECT'/><value enum='A' description='LOGON'/><value enum='D' description='NEW_ORDER_SINGLE'/><value enum='F' description='ORDER_CANCEL_REQUEST'/><value enum='G' description='ORDER_CANCEL_REPLACE_REQUEST'/><value enum='J' description='ALLOCATION_INSTRUCTION'/></field>\
<field number='36' name='NewSeqNo' type='SEQNUM'/>\
<field number='37' name='OrderID' type='STRING'/>\
<field number='38' name='OrderQty' type='QTY'/>\
<field number='39' name='OrdStatus' type='CHAR'><value enum='0' description='NEW'/><value enum='1' description='PARTIALLY_FILLED'/><value enum='2' description='FILLED'/><value enum='3' description='DONE_FOR_DAY'/><value enum='4' description='CANCELED'/><value enum='5' description='REPLACED'/><value enum='6' description='PENDING_CANCEL'/><value enum='7' description='STOPPED'/><value enum='8' description='REJECTED'/><value enum='9' description='SUSPENDED'/><value enum='A' description='PENDING_NEW'/><value enum='B' description='CALCULATED'/><value enum='C' description='EXPIRED'/><value enum='D' description='ACCEPTED_FOR_BIDDING'/><value enum='E' description='PENDING_REPLACE'/></field>\
<field number='40' name='OrdType' type='CHAR'><value enum='1' description='MARKET'/><value enum='2' description='LIMIT'/><value enum='3' description='STOP'/><value enum='4' description='STOP_LIMIT'/></field>\
<field number='41' name='OrigClOrdID' type='STRING'/>\
<field number='43' name='PossDupFlag' type='BOOLEAN'><value enum='N' description='ORIGINAL_TRANSMISSION'/><value enum='Y' description='POSSIBLE_DUPLICATE'/></field>\
<field number='44' name='Price' type='PRICE'/>\
<field number='45' name='RefSeqNum' type='SEQNUM'/>\
<field number='48' name='SecurityID' type='STRING'/>\
<field number='49' name='SenderCompID' type='STRING'/>\
<field number='50' name='SenderSubID' type='STRING'/>\
<field number='52' name='SendingTime' type='UTCTIMESTAMP'/>\
<field number='54' name='Side' type='CHAR'><value enum='1' description='BUY'/><value enum='2' description='SELL'/><value enum='3' description='BUY_MINUS'/><value enum='4' description='SELL_PLUS'/><value enum='5' description='SELL_SHORT'/></field>\
<field number='55' name='Symbol' type='STRING'/>\
<field number='56' name='TargetCompID' type='STRING'/>\
<field number='57' name='TargetSubID' type='STRING'/>\
<field number='58' name='Text' type='STRING'/>\
<field number='59' name='TimeInForce' type='CHAR'><value enum='0' description='DAY'/><value enum='1' description='GOOD_TILL_CANCEL'/><value enum='3' description='IMMEDIATE_OR_CANCEL'/><value enum='4' description='FILL_OR_KILL'/></field>\
<field number='60' name='TransactTime' type='UTCTIMESTAMP'/>\
<field number='63' name='SettlType' type='CHAR'/>\
<field number='64' name='SettlDate' type='LOCALMKTDATE'/>\
<field number='70' name='AllocID' type='STRING'/>\
<field number='71' name='AllocTransType' type='CHAR'><value enum='0' description='NEW'/><value enum='1' description='REPLACE'/><value enum='2' description='CANCEL'/></field>\
<field number='73' name='NoOrders' type='NUMINGROUP'/>\
<field number='75' name='TradeDate' type='LOCALMKTDATE'/>\
<field number='89' name='Signature' type='DATA'/>\
<field number='93' name='SignatureLength' type='LENGTH'/>\
<field number='97' name='PossResend' type='BOOLEAN'/>\
<field number='98' name='EncryptMethod' type='INT'><value enum='0' description='NONE_OTHER'/><value enum='1' description='PKCS'/></field>\
<field number='102' name='CxlRejReason' type='INT'><value enum='0' description='TOO_LATE_TO_CANCEL'/><value enum='1' description='UNKNOWN_ORDER'/></field>\
<field number='108' name='HeartBtInt' type='INT'/>\
<field number='112' name='TestReqID' type='STRING'/>\
<field number='115' name='OnBehalfOfCompID' type='STRING'/>\
<field number='122' name='OrigSendingTime' type='UTCTIMESTAMP'/>\
<field number='123' name='GapFillFlag' type='BOOLEAN'/>\
<field number='128' name='DeliverToCompID' type='STRING'/>\
<field number='141' name='ResetSeqNumFlag' type='BOOLEAN'/>\
<field number='150' name='ExecType' type='CHAR'><value enum='0' description='NEW'/><value enum='3' description='DONE_FOR_DAY'/><value enum='4' description='CANCELED'/><value enum='5' description='REPLACED'/><value enum='6' description='PENDING_CANCEL'/><value enum='8' description='REJECTED'/><value enum='A' description='PENDING_NEW'/><value enum='C' description='EXPIRED'/><value enum='E' description='PENDING_REPLACE'/><value enum='F' description='TRADE'/></field>\
<field number='151' name='LeavesQty' type='QTY'/>\
<field number='371' name='RefTagID' type='INT'/>\
<field number='372' name='RefMsgType' type='STRING'/>\
<field number='373' name='SessionRejectReason' type='INT'><value enum='0' description='INVALID_TAG_NUMBER'/><value enum='1' description='REQUIRED_TAG_MISSING'/></field>\
<field number='434' name='CxlRejResponseTo' type='CHAR'><value enum='1' description='ORDER_CANCEL_REQUEST'/><value enum='2' description='ORDER_CANCEL_REPLACE_REQUEST'/></field>\
<field number='626' name='AllocType' type='INT'><value enum='1' description='CALCULATED'/><value enum='2' description='PRELIMINARY'/></field>\
<field number='857' name='AllocNoOrdersType' type='INT'><value enum='0' description='NOT_SPECIFIED'/><value enum='1' description='EXPLICIT_LIST_PROVIDED'/></field></fields></fix>";

pub const FIX42_XML: &'static str = "<fix type='FIX' major='4' minor='2' servicepack='0'><header><field name='BeginString' required='Y'/><field name='BodyLength' required='Y'/><field name='MsgType' required='Y'/><field name='SenderCompID' required='Y'/><field name='TargetCompID' required='Y'/><field name='OnBehalfOfCompID' required='N'/><field name='DeliverToCompID' required='N'/><field name='MsgSeqNum' required='Y'/><field name='SenderSubID' required='N'/><field name='TargetSubID' required='N'/><field name='PossDupFlag' required='N'/><field name='PossResend' required='N'/><field name='SendingTime' required='Y'/><field name='OrigSendingTime' required='N'/></header><messages>\
<message name='Heartbeat' msgtype='0' msgcat='admin'><field name='TestReqID' required='N'/></message>\
<message name='TestRequest' msgtype='1' msgcat='admin'><field name='TestReqID' required='Y'/></message>\
<message name='ResendRequest' msgtype='2' msgcat='admin'><field name='BeginSeqNo' required='Y'/><field name='EndSeqNo' required='Y'/></message>\
<message name='Reject' msgtype='3' msgcat='admin'><field name='RefSeqNum' required='Y'/><field name='RefTagID' required='N'/><field name='RefMsgType' required='N'/><field name='SessionRejectReason' required='N'/><field name='Text' required='N'/></message>\
<message name='SequenceReset' msgtype='4' msgcat='admin'><field name='GapFillFlag' required='N'/><field name='NewSeqNo' required='Y'/></message>\
<message name='Logout' msgtype='5' msgcat='admin'><field name='Text' required='N'/></message>\
<message name='Logon' msgtype='A' msgcat='admin'><field name='EncryptMethod' required='Y'/><field name='HeartBtInt' required='Y'/><field name='ResetSeqNumFlag' required='N'/></message>\
<message name='ExecutionReport' msgtype='8' msgcat='app'><field name='OrderID' required='Y'/><field name='ClOrdID' required='N'/><field name='OrigClOrdID' required='N'/><field name='ExecID' required='Y'/><field name='ExecTransType' required='Y'/><field name='ExecType' required='Y'/><field name='OrdStatus' required='Y'/><field name='Account' required='N'/><field name='Symbol' required='Y'/><field name='SecurityID' required='N'/><field name='Side' required='Y'/><field name='OrderQty' required='N'/><field name='OrdType' required='N'/><field name='Price' required='N'/><field name='Currency' required='N'/><field name='LastQty' required='N'/><field name='LastPx' required='N'/><field name='LeavesQty' required='Y'/><field name='CumQty' required='Y'/><field name='AvgPx' required='Y'/><field name='TradeDate' required='N'/><field name='TransactTime' required='N'/><field name='SettlType' required='N'/><field name='SettlDate' required='N'/><field name='Text' required='N'/></message>\
<message name='OrderCancelReject' msgtype='9' msgcat='app'><field name='OrderID' required='Y'/><field name='ClOrdID' required='Y'/><field name='OrigClOrdID' required='Y'/><field name='OrdStatus' required='Y'/><field name='CxlRejResponseTo' required='N'/><field name='CxlRejReason' required='N'/><field name='Text' required='N'/></message>\
<message name='NewOrderSingle' msgtype='D' msgcat='app'><field name='ClOrdID' required='Y'/><field name='Account' required='N'/><field name='SettlType' required='N'/><field name='SettlDate' required='N'/><group name='NoAllocs' required='N'><field name='AllocAccount' required='N'/><field name='AllocQty' required='N'/></group><field name='HandlInst' required='N'/><field name='Symbol' required='Y'/><field name='SecurityID' required='N'/><field name='Side' required='Y'/><field name='TransactTime' required='Y'/><field name='OrderQty' required='N'/><field name='OrdType' required='Y'/><field name='Price' required='N'/><field name='Currency' required='N'/><field name='TimeInForce' required='N'/><field name='TradeDate' required='N'/><field name='Text' required='N'/></message>\
<message name='OrderCancelRequest' msgtype='F' msgcat='app'><field name='OrigClOrdID' required='Y'/><field name='OrderID' required='N'/><field name='ClOrdID' required='Y'/><field name='Symbol' required='Y'/><field name='SecurityID' required='N'/><field name='Side' required='Y'/><field name='TransactTime' required='Y'/><field name='OrderQty' required='N'/><field name='Text' required='N'/></message>\
<message name='OrderCancelReplaceRequest' msgtype='G' msgcat='app'><field name='OrderID' required='N'/><field name='OrigClOrdID' required='Y'/><field name='ClOrdID' required='Y'/><field name='HandlInst' required='N'/><field name='Symbol' required='Y'/><field name='SecurityID' required='N'/><field name='Side' required='Y'/><field name='TransactTime' required='Y'/><field name='OrderQty' required='N'/><field name='OrdType' required='Y'/><field name='Price' required='N'/><field name='Text' required='N'/></message>\
<message name='AllocationInstruction' msgtype='J' msgcat='app'><field name='AllocID' required='Y'/><field name='AllocTransType' required='Y'/><field name='AllocType' required='N'/><field name='AllocNoOrdersType' required='N'/><group name='NoOrders' required='N'><field name='ClOrdID' required='N'/><field name='OrderID' required='N'/></group><field name='Side' required='Y'/><field name='Symbol' required='Y'/><field name='SecurityID' required='N'/><field name='OrderQty' required='N'/><field name='AvgPx' required='Y'/><field name='TradeDate' required='Y'/><group name='NoAllocs' required='N'><field name='AllocAccount' required='N'/><field name='AllocQty' required='N'/></group><field name='Text' required='N'/></message>\
<message name='MarketDataSnapshotFullRefresh' msgtype='W' msgcat='app'><field name='MDReqID' required='N'/><field name='Symbol' required='Y'/><field name='SecurityID' required='N'/><group name='NoMDEntries' required='Y'><field name='MDEntryType' required='Y'/><field name='MDEntryPx' required='N'/><field name='MDEntrySize' required='N'/></group></message></messages>\
<trailer><field name='SignatureLength' required='N'/><field name='Signature' required='N'/><field name='CheckSum' required='Y'/></trailer>\
<components/>\
<fields>\
<field number='1' name='Account' type='STRING'/>\
<field number='6' name='AvgPx' type='PRICE'/>\
<field number='7' name='BeginSeqNo' type='SEQNUM'/>\
<field number='8' name='BeginString' type='STRING'/>\
<field number='9' name='BodyLength' type='LENGTH'/>\
<field number='10' name='CheckSum' type='STRING'/>\
<field number='11' name='ClOrdID' type='STRING'/>\
<field number='14' name='CumQty' type='QTY'/>\
<field number='15' name='Currency' type='CURRENCY'/>\
<field number='16' name='EndSeqNo' type='SEQNUM'/>\
<field number='17' name='ExecID' type='STRING'/>\
<field number='20' name='ExecTransType' type='CHAR'><value enum='0' description='NEW'/><value enum='1' description='CANCEL'/><value enum='2' description='CORRECT'/><value enum='3' description='STATUS'/></field>\
<field number='21' name='HandlInst' type='CHAR'><value enum='1' description='AUTOMATED_EXECUTION_ORDER_PRIVATE'/><value enum='2' description='AUTOMATED_EXECUTION_ORDER_PUBLIC'/><value enum='3' description='MANUAL_ORDER'/></field>\
<field number='31' name='LastPx' type='PRICE'/>\
<field number='32' name='LastQty' type='QTY'/>\
<field number='34' name='MsgSeqNum' type='SEQNUM'/>\
<field number='35' name='MsgType' type='STRING'><value enum='0' description='HEARTBEAT'/><value enum='1' description='TEST_REQUEST'/><value enum='2' description='RESEND_REQUEST'/><value enum='3' description='REJECT'/><value enum='4' description='SEQUENCE_RESET'/><value enum='5' description='LOGOUT'/><value enum='8' description='EXECUTION_REPORT'/><value enum='9' description='ORDER_CANCEL_REJECT'/><value enum='A' description='LOGON'/><value enum='D' description='NEW_ORDER_SINGLE'/><value enum='F' description='ORDER_CANCEL_REQUEST'/><value enum='G' description='ORDER_CANCEL_REPLACE_REQUEST'/><value enum='J' description='ALLOCATION_INSTRUCTION'/><value enum='W' description='MARKET_DATA_SNAPSHOT_FULL_REFRESH'/></field>\
<field number='36' name='NewSeqNo' type='SEQNUM'/>\
<field number='37' name='OrderID' type='STRING'/>\
<field number='38' name='OrderQty' type='QTY'/>\
<field number='39' name='OrdStatus' type='CHAR'><value enum='0' description='NEW'/><value enum='1' description='PARTIALLY_FILLED'/><value enum='2' description='FILLED'/><value enum='3' description='DONE_FOR_DAY'/><value enum='4' description='CANCELED'/><value enum='5' description='REPLACED'/><value enum='6' description='PENDING_CANCEL'/><value enum='7' description='STOPPED'/><value enum='8' description='REJECTED'/><value enum='9' description='SUSPENDED'/><value enum='A' description='PENDING_NEW'/><value enum='B' description='CALCULATED'/><value enum='C' description='EXPIRED'/><value enum='D' description='ACCEPTED_FOR_BIDDING'/><value enum='E' description='PENDING_REPLACE'/></field>\
<field number='40' name='OrdType' type='CHAR'><value enum='1' description='MARKET'/><value enum='2' description='LIMIT'/><value enum='3' description='STOP'/><value enum='4' description='STOP_LIMIT'/></field>\
<field number='41' name='OrigClOrdID' type='STRING'/>\
<field number='43' name='PossDupFlag' type='BOOLEAN'><value enum='N' description='ORIGINAL_TRANSMISSION'/><value enum='Y' description='POSSIBLE_DUPLICATE'/></field>\
<field number='44' name='Price' type='PRICE'/>\
<field number='45' name='RefSeqNum' type='SEQNUM'/>\
<field number='48' name='SecurityID' type='STRING'/>\
<field number='49' name='SenderCompID' type='STRING'/>\
<field number='50' name='SenderSubID' type='STRING'/>\
<field number='52' name='SendingTime' type='UTCTIMESTAMP'/>\
<field number='54' name='Side' type='CHAR'><value enum='1' description='BUY'/><value enum='2' description='SELL'/><value enum='3' description='BUY_MINUS'/><value enum='4' description='SELL_PLUS'/><value enum='5' description='SELL_SHORT'/></field>\
<field number='55' name='Symbol' type='STRING'/>\
<field number='56' name='TargetCompID' type='STRING'/>\
<field number='57' name='TargetSubID' type='STRING'/>\
<field number='58' name='Text' type='STRING'/>\
<field number='59' name='TimeInForce' type='CHAR'><value enum='0' description='DAY'/><value enum='1' description='GOOD_TILL_CANCEL'/><value enum='3' description='IMMEDIATE_OR_CANCEL'/><value enum='4' description='FILL_OR_KILL'/></field>\
<field number='60' name='TransactTime' type='UTCTIMESTAMP'/>\
<field number='63' name='SettlType' type='CHAR'/>\
<field number='64' name='SettlDate' type='LOCALMKTDATE'/>\
<field number='70' name='AllocID' type='STRING'/>\
<field number='71' name='AllocTransType' type='CHAR'><value enum='0' description='NEW'/><value enum='1' description='REPLACE'/><value enum='2' description='CANCEL'/></field>\
<field number='73' name='NoOrders' type='NUMINGROUP'/>\
<field number='75' name='TradeDate' type='LOCALMKTDATE'/>\
<field number='78' name='NoAllocs' type='NUMINGROUP'/>\
<field number='79' name='AllocAccount' type='STRING'/>\
<field number='80' name='AllocQty' type='QTY'/>\
<field number='89' name='Signature' type='DATA'/>\
<field number='93' name='SignatureLength' type='LENGTH'/>\
<field number='97' name='PossResend' type='BOOLEAN'/>\
<field number='98' name='EncryptMethod' type='INT'><value enum='0' description='NONE_OTHER'/><value enum='1' description='PKCS'/></field>\
<field number='102' name='CxlRejReason' type='INT'><value enum='0' description='TOO_LATE_TO_CANCEL'/><value enum='1' description='UNKNOWN_ORDER'/></field>\
<field number='108' name='HeartBtInt' type='INT'/>\
<field number='112' name='TestReqID' type='STRING'/>\
<field number='115' name='OnBehalfOfCompID' type='STRING'/>\
<field number='122' name='OrigSendingTime' type='UTCTIMESTAMP'/>\
<field number='123' name='GapFillFlag' type='BOOLEAN'/>\
<field number='128' name='DeliverToCompID' type='STRING'/>\
<field number='141' name='ResetSeqNumFlag' type='BOOLEAN'/>\
<field number='150' name='ExecType' type='CHAR'><value enum='0' description='NEW'/><value enum='3' description='DONE_FOR_DAY'/><value enum='4' description='CANCELED'/><value enum='5' description='REPLACED'/><value enum='6' description='PENDING_CANCEL'/><value enum='8' description='REJECTED'/><value enum='A' description='PENDING_NEW'/><value enum='C' description='EXPIRED'/><value enum='E' description='PENDING_REPLACE'/><value enum='F' description='TRADE'/></field>\
<field number='151' name='LeavesQty' type='QTY'/>\
<field number='262' name='MDReqID' type='STRING'/>\
<field number='268' name='NoMDEntries' type='NUMINGROUP'/>\
<field number='269' name='MDEntryType' type='CHAR'><value enum='0' description='BID'/><value enum='1' description='OFFER'/><value enum='2' description='TRADE'/></field>\
<field number='270' name='MDEntryPx' type='PRICE'/>\
<field number='271' name='MDEntrySize' type='QTY'/>\
<field number='371' name='RefTagID' type='INT'/>\
<field number='372' name='RefMsgType' type='STRING'/>\
<field number='373' name='SessionRejectReason' type='INT'><value enum='0' description='INVALID_TAG_NUMBER'/><value enum='1' description='REQUIRED_TAG_MISSING'/></field>\
<field number='434' name='CxlRejResponseTo' type='CHAR'><value enum='1' description='ORDER_CANCEL_REQUEST'/><value enum='2' description='ORDER_CANCEL_REPLACE_REQUEST'/></field>\
<field number='626' name='AllocType' type='INT'><value enum='1' description='CALCULATED'/><value enum='2' description='PRELIMINARY'/></field>\
<field number='857' name='AllocNoOrdersType' type='INT'><value enum='0' description='NOT_SPECIFIED'/><value enum='1' description='EXPLICIT_LIST_PROVIDED'/></field></fields></fix>";

pub const FIX43_XML: &'static str = "<fix type='FIX' major='4' minor='3' servicepack='0'><header><field name='BeginString' required='Y'/><field name='BodyLength' required='Y'/><field name='MsgType' required='Y'/><field name='SenderCompID' required='Y'/><field name='TargetCompID' required='Y'/><field name='OnBehalfOfCompID' required='N'/><field name='DeliverToCompID' required='N'/><field name='MsgSeqNum' required='Y'/><field name='SenderSubID' required='N'/><field name='TargetSubID' required='N'/><field name='PossDupFlag' required='N'/><field name='PossResend' required='N'/><field name='SendingTime' required='Y'/><field name='OrigSendingTime' required='N'/></header><messages>\
<message name='Heartbeat' msgtype='0' msgcat='admin'><field name='TestReqID' required='N'/></message>\
<message name='TestRequest' msgtype='1' msgcat='admin'><field name='TestReqID' required='Y'/></message>\
<message name='ResendRequest' msgtype='2' msgcat='admin'><field name='BeginSeqNo' required='Y'/><field name='EndSeqNo' required='Y'/></message>\
<message name='Reject' msgtype='3' msgcat='admin'><field name='RefSeqNum' required='Y'/><field name='RefTagID' required='N'/><field name='RefMsgType' required='N'/><field name='SessionRejectReason' required='N'/><field name='Text' required='N'/></message>\
<message name='SequenceReset' msgtype='4' msgcat='admin'><field name='GapFillFlag' required='N'/><field name='NewSeqNo' required='Y'/></message>\
<message name='Logout' msgtype='5' msgcat='admin'><field name='Text' required='N'/></message>\
<message name='Logon' msgtype='A' msgcat='admin'><field name='EncryptMethod' required='Y'/><field name='HeartBtInt' required='Y'/><field name='ResetSeqNumFlag' required='N'/></message>\
<message name='ExecutionReport' msgtype='8' msgcat='app'><field name='OrderID' required='Y'/><field name='ClOrdID' required='N'/><field name='OrigClOrdID' required='N'/><component name='Parties' required='N'/><field name='ExecID' required='Y'/><field name='ExecType' required='Y'/><field name='OrdStatus' required='Y'/><field name='Account' required='N'/><component name='Instrument' required='Y'/><field name='Side' required='Y'/><field name='OrderQty' required='N'/><field name='OrdType' required='N'/><field name='Price' required='N'/><field name='Currency' required='N'/><field name='LastQty' required='N'/><field name='LastPx' required='N'/><field name='LeavesQty' required='Y'/><field name='CumQty' required='Y'/><field name='AvgPx' required='Y'/><field name='TradeDate' required='N'/><field name='TransactTime' required='N'/><field name='SettlType' required='N'/><field name='SettlDate' required='N'/><field name='Text' required='N'/></message>\
<message name='OrderCancelReject' msgtype='9' msgcat='app'><field name='OrderID' required='Y'/><field name='ClOrdID' required='Y'/><field name='OrigClOrdID' required='Y'/><field name='OrdStatus' required='Y'/><field name='CxlRejResponseTo' required='N'/><field name='CxlRejReason' required='N'/><field name='Text' required='N'/></message>\
<message name='NewOrderSingle' msgtype='D' msgcat='app'><field name='ClOrdID' required='Y'/><component name='Parties' required='N'/><field name='Account' required='N'/><field name='SettlType' required='N'/><field name='SettlDate' required='N'/><group name='NoAllocs' required='N'><field name='AllocAccount' required='N'/><field name='AllocQty' required='N'/></group><field name='HandlInst' required='N'/><component name='Instrument' required='Y'/><field name='Side' required='Y'/><field name='TransactTime' required='Y'/><field name='OrderQty' required='N'/><field name='OrdType' required='Y'/><field name='Price' required='N'/><field name='Currency' required='N'/><field name='TimeInForce' required='N'/><component name='CommissionData' required='N'/><field name='TradeDate' required='N'/><field name='Text' required='N'/></message>\
<message name='OrderCancelRequest' msgtype='F' msgcat='app'><field name='OrigClOrdID' required='Y'/><field name='OrderID' required='N'/><field name='ClOrdID' required='Y'/><component name='Instrument' required='Y'/><field name='Side' required='Y'/><field name='TransactTime' required='Y'/><field name='OrderQty' required='N'/><field name='Text' required='N'/></message>\
<message name='OrderCancelReplaceRequest' msgtype='G' msgcat='app'><field name='OrderID' required='N'/><field name='OrigClOrdID' required='Y'/><field name='ClOrdID' required='Y'/><field name='HandlInst' required='N'/><component name='Instrument' required='Y'/><field name='Side' required='Y'/><field name='TransactTime' required='Y'/><field name='OrderQty' required='N'/><field name='OrdType' required='Y'/><field name='Price' required='N'/><field name='Text' required='N'/></message>\
<message name='AllocationInstruction' msgtype='J' msgcat='app'><field name='AllocID' required='Y'/><field name='AllocTransType' required='Y'/><field name='AllocType' required='N'/><field name='AllocNoOrdersType' required='N'/><group name='NoOrders' required='N'><field name='ClOrdID' required='N'/><field name='OrderID' required='N'/></group><field name='Side' required='Y'/><component name='Instrument' required='Y'/><field name='OrderQty' required='N'/><field name='AvgPx' required='Y'/><field name='TradeDate' required='Y'/><group name='NoAllocs' required='N'><field name='AllocAccount' required='N'/><field name='AllocQty' required='N'/></group><field name='Text' required='N'/></message>\
<message name='MarketDataSnapshotFullRefresh' msgtype='W' msgcat='app'><field name='MDReqID' required='N'/><component name='Instrument' required='Y'/><group name='NoMDEntries' required='Y'><field name='MDEntryType' required='Y'/><field name='MDEntryPx' required='N'/><field name='MDEntrySize' required='N'/></group></message></messages>\
<trailer><field name='SignatureLength' required='N'/><field name='Signature' required='N'/><field name='CheckSum' required='Y'/></trailer>\
<components><component name='CommissionData'><field name='Commission' required='N'/><field name='CommType' required='N'/><field name='CommCurrency' required='N'/></component><component name='Instrument'><field name='Symbol' required='Y'/><field name='SecurityID' required='N'/><field name='SecurityIDSource' required='N'/><field name='MaturityMonthYear' required='N'/></component><component name='Parties'><group name='NoPartyIDs' required='N'><field name='PartyID' required='N'/><field name='PartyIDSource' required='N'/><field name='PartyRole' required='N'/><component name='PtysSubGrp' required='N'/></group></component><component name='PtysSubGrp'><group name='NoPartySubIDs' required='N'><field name='PartySubID' required='N'/><field name='PartySubIDType' required='N'/></group></component></components>\
<fields>\
<field number='1' name='Account' type='STRING'/>\
<field number='6' name='AvgPx' type='PRICE'/>\
<field number='7' name='BeginSeqNo' type='SEQNUM'/>\
<field number='8' name='BeginString' type='STRING'/>\
<field number='9' name='BodyLength' type='LENGTH'/>\
<field number='10' name='CheckSum' type='STRING'/>\
<field number='11' name='ClOrdID' type='STRING'/>\
<field number='12' name='Commission' type='AMT'/>\
<field number='13' name='CommType' type='CHAR'><value enum='1' description='PER_UNIT'/><value enum='2' description='PERCENT'/><value enum='3' description='ABSOLUTE'/></field>\
<field number='14' name='CumQty' type='QTY'/>\
<field number='15' name='Currency' type='CURRENCY'/>\
<field number='16' name='EndSeqNo' type='SEQNUM'/>\
<field number='17' name='ExecID' type='STRING'/>\
<field number='21' name='HandlInst' type='CHAR'><value enum='1' description='AUTOMATED_EXECUTION_ORDER_PRIVATE'/><value enum='2' description='AUTOMATED_EXECUTION_ORDER_PUBLIC'/><value enum='3' description='MANUAL_ORDER'/></field>\
<field number='22' name='SecurityIDSource' type='STRING'><value enum='1' description='CUSIP'/><value enum='2' description='SEDOL'/><value enum='4' description='ISIN_NUMBER'/></field>\
<field number='31' name='LastPx' type='PRICE'/>\
<field number='32' name='LastQty' type='QTY'/>\
<field number='34' name='MsgSeqNum' type='SEQNUM'/>\
<field number='35' name='MsgType' type='STRING'><value enum='0' description='HEARTBEAT'/><value enum='1' description='TEST_REQUEST'/><value enum='2' description='RESEND_REQUEST'/><value enum='3' description='REJECT'/><value enum='4' description='SEQUENCE_RESET'/><value enum='5' description='LOGOUT'/><value enum='8' description='EXECUTION_REPORT'/><value enum='9' description='ORDER_CANCEL_REJECT'/><value enum='A' description='LOGON'/><value enum='D' description='NEW_ORDER_SINGLE'/><value enum='F' description='ORDER_CANCEL_REQUEST'/><value enum='G' description='ORDER_CANCEL_REPLACE_REQUEST'/><value enum='J' description='ALLOCATION_INSTRUCTION'/><value enum='W' description='MARKET_DATA_SNAPSHOT_FULL_REFRESH'/></field>\
<field number='36' name='NewSeqNo' type='SEQNUM'/>\
<field number='37' name='OrderID' type='STRING'/>\
<field number='38' name='OrderQty' type='QTY'/>\
<field number='39' name='OrdStatus' type='CHAR'><value enum='0' description='NEW'/><value enum='1' description='PARTIALLY_FILLED'/><value enum='2' description='FILLED'/><value enum='3' description='DONE_FOR_DAY'/><value enum='4' description='CANCELED'/><value enum='5' description='REPLACED'/><value enum='6' description='PENDING_CANCEL'/><value enum='7' description='STOPPED'/><value enum='8' description='REJECTED'/><value enum='9' description='SUSPENDED'/><value enum='A' description='PENDING_NEW'/><value enum='B' description='CALCULATED'/><value enum='C' description='EXPIRED'/><value enum='D' description='ACCEPTED_FOR_BIDDING'/><value enum='E' description='PENDING_REPLACE'/></field>\
<field number='40' name='OrdType' type='CHAR'><value enum='1' description='MARKET'/><value enum='2' description='LIMIT'/><value enum='3' description='STOP'/><value enum='4' description='STOP_LIMIT'/></field>\
<field number='41' name='OrigClOrdID' type='STRING'/>\
<field number='43' name='PossDupFlag' type='BOOLEAN'><value enum='N' description='ORIGINAL_TRANSMISSION'/><value enum='Y' description='POSSIBLE_DUPLICATE'/></field>\
<field number='44' name='Price' type='PRICE'/>\
<field number='45' name='RefSeqNum' type='SEQNUM'/>\
<field number='48' name='SecurityID' type='STRING'/>\
<field number='49' name='SenderCompID' type='STRING'/>\
<field number='50' name='SenderSubID' type='STRING'/>\
<field number='52' name='SendingTime' type='UTCTIMESTAMP'/>\
<field number='54' name='Side' type='CHAR'><value enum='1' description='BUY'/><value enum='2' description='SELL'/><value enum='3' description='BUY_MINUS'/><value enum='4' description='SELL_PLUS'/><value enum='5' description='SELL_SHORT'/></field>\
<field number='55' name='Symbol' type='STRING'/>\
<field number='56' name='TargetCompID' type='STRING'/>\
<field number='57' name='TargetSubID' type='STRING'/>\
<field number='58' name='Text' type='STRING'/>\
<field number='59' name='TimeInForce' type='CHAR'><value enum='0' description='DAY'/><value enum='1' description='GOOD_TILL_CANCEL'/><value enum='3' description='IMMEDIATE_OR_CANCEL'/><value enum='4' description='FILL_OR_KILL'/></field>\
<field number='60' name='TransactTime' type='UTCTIMESTAMP'/>\
<field number='63' name='SettlType' type='CHAR'/>\
<field number='64' name='SettlDate' type='LOCALMKTDATE'/>\
<field number='70' name='AllocID' type='STRING'/>\
<field number='71' name='AllocTransType' type='CHAR'><value enum='0' description='NEW'/><value enum='1' description='REPLACE'/><value enum='2' description='CANCEL'/></field>\
<field number='73' name='NoOrders' type='NUMINGROUP'/>\
<field number='75' name='TradeDate' type='LOCALMKTDATE'/>\
<field number='78' name='NoAllocs' type='NUMINGROUP'/>\
<field number='79' name='AllocAccount' type='STRING'/>\
<field number='80' name='AllocQty' type='QTY'/>\
<field number='89' name='Signature' type='DATA'/>\
<field number='93' name='SignatureLength' type='LENGTH'/>\
<field number='97' name='PossResend' type='BOOLEAN'/>\
<field number='98' name='EncryptMethod' type='INT'><value enum='0' description='NONE_OTHER'/><value enum='1' description='PKCS'/></field>\
<field number='102' name='CxlRejReason' type='INT'><value enum='0' description='TOO_LATE_TO_CANCEL'/><value enum='1' description='UNKNOWN_ORDER'/></field>\
<field number='108' name='HeartBtInt' type='INT'/>\
<field number='112' name='TestReqID' type='STRING'/>\
<field number='115' name='OnBehalfOfCompID' type='STRING'/>\
<field number='122' name='OrigSendingTime' type='UTCTIMESTAMP'/>\
<field number='123' name='GapFillFlag' type='BOOLEAN'/>\
<field number='128' name='DeliverToCompID' type='STRING'/>\
<field number='141' name='ResetSeqNumFlag' type='BOOLEAN'/>\
<field number='150' name='ExecType' type='CHAR'><value enum='0' description='NEW'/><value enum='3' description='DONE_FOR_DAY'/><value enum='4' description='CANCELED'/><value enum='5' description='REPLACED'/><value enum='6' description='PENDING_CANCEL'/><value enum='8' description='REJECTED'/><value enum='A' description='PENDING_NEW'/><value enum='C' description='EXPIRED'/><value enum='E' description='PENDING_REPLACE'/><value enum='F' description='TRADE'/></field>\
<field number='151' name='LeavesQty' type='QTY'/>\
<field number='200' name='MaturityMonthYear' type='MONTHYEAR'/>\
<field number='262' name='MDReqID' type='STRING'/>\
<field number='268' name='NoMDEntries' type='NUMINGROUP'/>\
<field number='269' name='MDEntryType' type='CHAR'><value enum='0' description='BID'/><value enum='1' description='OFFER'/><value enum='2' description='TRADE'/></field>\
<field number='270' name='MDEntryPx' type='PRICE'/>\
<field number='271' name='MDEntrySize' type='QTY'/>\
<field number='371' name='RefTagID' type='INT'/>\
<field number='372' name='RefMsgType' type='STRING'/>\
<field number='373' name='SessionRejectReason' type='INT'><value enum='0' description='INVALID_TAG_NUMBER'/><value enum='1' description='REQUIRED_TAG_MISSING'/></field>\
<field number='434' name='CxlRejResponseTo' type='CHAR'><value enum='1' description='ORDER_CANCEL_REQUEST'/><value enum='2' description='ORDER_CANCEL_REPLACE_REQUEST'/></field>\
<field number='447' name='PartyIDSource' type='CHAR'><value enum='B' description='BIC'/><value enum='C' description='GENERALLY_ACCEPTED_MARKET_PARTICIPANT_IDENTIFIER'/><value enum='D' description='PROPRIETARY_CUSTOM_CODE'/></field>\
<field number='448' name='PartyID' type='STRING'/>\
<field number='452' name='PartyRole' type='INT'><value enum='1' description='EXECUTING_FIRM'/><value enum='3' description='CLIENT_ID'/><value enum='11' description='ORDER_ORIGINATION_TRADER'/></field>\
<field number='453' name='NoPartyIDs' type='NUMINGROUP'/>\
<field number='479' name='CommCurrency' type='CURRENCY'/>\
<field number='523' name='PartySubID' type='STRING'/>\
<field number='626' name='AllocType' type='INT'><value enum='1' description='CALCULATED'/><value enum='2' description='PRELIMINARY'/></field>\
<field number='802' name='NoPartySubIDs' type='NUMINGROUP'/>\
<field number='803' name='PartySubIDType' type='INT'/>\
<field number='857' name='AllocNoOrdersType' type='INT'><value enum='0' description='NOT_SPECIFIED'/><value enum='1' description='EXPLICIT_LIST_PROVIDED'/></field></fields></fix>";

pub const FIX44_XML: &'static str = "<fix type='FIX' major='4' minor='4' servicepack='0'><header><field name='BeginString' required='Y'/><field name='BodyLength' required='Y'/><field name='MsgType' required='Y'/><field name='SenderCompID' required='Y'/><field name='TargetCompID' required='Y'/><field name='OnBehalfOfCompID' required='N'/><field name='DeliverToCompID' required='N'/><field name='MsgSeqNum' required='Y'/><field name='SenderSubID' required='N'/><field name='TargetSubID' required='N'/><field name='PossDupFlag' required='N'/><field name='PossResend' required='N'/><field name='SendingTime' required='Y'/><field name='OrigSendingTime' required='N'/></header><messages>\
<message name='Heartbeat' msgtype='0' msgcat='admin'><field name='TestReqID' required='N'/></message>\
<message name='TestRequest' msgtype='1' msgcat='admin'><field name='TestReqID' required='Y'/></message>\
<message name='ResendRequest' msgtype='2' msgcat='admin'><field name='BeginSeqNo' required='Y'/><field name='EndSeqNo' required='Y'/></message>\
<message name='Reject' msgtype='3' msgcat='admin'><field name='RefSeqNum' required='Y'/><field name='RefTagID' required='N'/><field name='RefMsgType' required='N'/><field name='SessionRejectReason' required='N'/><field name='Text' required='N'/></message>\
<message name='SequenceReset' msgtype='4' msgcat='admin'><field name='GapFillFlag' required='N'/><field name='NewSeqNo' required='Y'/></message>\
<message name='Logout' msgtype='5' msgcat='admin'><field name='Text' required='N'/></message>\
<message name='Logon' msgtype='A' msgcat='admin'><field name='EncryptMethod' required='Y'/><field name='HeartBtInt' required='Y'/><field name='ResetSeqNumFlag' required='N'/></message>\
<message name='ExecutionReport' msgtype='8' msgcat='app'><field name='OrderID' required='Y'/><field name='ClOrdID' required='N'/><field name='OrigClOrdID' required='N'/><component name='Parties' required='N'/><field name='ExecID' required='Y'/><field name='ExecType' required='Y'/><field name='OrdStatus' required='Y'/><field name='Account' required='N'/><component name='Instrument' required='Y'/><field name='Side' required='Y'/><field name='OrderQty' required='N'/><field name='OrdType' required='N'/><field name='Price' required='N'/><field name='Currency' required='N'/><field name='LastQty' required='N'/><field name='LastPx' required='N'/><field name='LeavesQty' required='Y'/><field name='CumQty' required='Y'/><field name='AvgPx' required='Y'/><field name='TradeDate' required='N'/><field name='TransactTime' required='N'/><field name='SettlType' required='N'/><field name='SettlDate' required='N'/><field name='Text' required='N'/></message>\
<message name='OrderCancelReject' msgtype='9' msgcat='app'><field name='OrderID' required='Y'/><field name='ClOrdID' required='Y'/><field name='OrigClOrdID' required='Y'/><field name='OrdStatus' required='Y'/><field name='CxlRejResponseTo' required='N'/><field name='CxlRejReason' required='N'/><field name='Text' required='N'/></message>\
<message name='NewOrderSingle' msgtype='D' msgcat='app'><field name='ClOrdID' required='Y'/><component name='Parties' required='N'/><field name='Account' required='N'/><field name='SettlType' required='N'/><field name='SettlDate' required='N'/><group name='NoAllocs' required='N'><field name='AllocAccount' required='N'/><field name='AllocQty' required='N'/></group><field name='HandlInst' required='N'/><component name='Instrument' required='Y'/><field name='Side' required='Y'/><field name='TransactTime' required='Y'/><field name='OrderQty' required='N'/><field name='OrdType' required='Y'/><field name='Price' required='N'/><field name='Currency' required='N'/><field name='TimeInForce' required='N'/><component name='CommissionData' required='N'/><field name='TradeDate' required='N'/><field name='Text' required='N'/></message>\
<message name='OrderCancelRequest' msgtype='F' msgcat='app'><field name='OrigClOrdID' required='Y'/><field name='OrderID' required='N'/><field name='ClOrdID' required='Y'/><component name='Instrument' required='Y'/><field name='Side' required='Y'/><field name='TransactTime' required='Y'/><field name='OrderQty' required='N'/><field name='Text' required='N'/></message>\
<message name='OrderCancelReplaceRequest' msgtype='G' msgcat='app'><field name='OrderID' required='N'/><field name='OrigClOrdID' required='Y'/><field name='ClOrdID' required='Y'/><field name='HandlInst' required='N'/><component name='Instrument' required='Y'/><field name='Side' required='Y'/><field name='TransactTime' required='Y'/><field name='OrderQty' required='N'/><field name='OrdType' required='Y'/><field name='Price' required='N'/><field name='Text' required='N'/></message>\
<message name='AllocationInstruction' msgtype='J' msgcat='app'><field name='AllocID' required='Y'/><field name='AllocTransType' required='Y'/><field name='AllocType' required='N'/><field name='AllocNoOrdersType' required='N'/><group name='NoOrders' required='N'><field name='ClOrdID' required='N'/><field name='OrderID' required='N'/></group><field name='Side' required='Y'/><component name='Instrument' required='Y'/><field name='OrderQty' required='N'/><field name='AvgPx' required='Y'/><field name='TradeDate' required='Y'/><group name='NoAllocs' required='N'><field name='AllocAccount' required='N'/><field name='AllocQty' required='N'/></group><field name='Text' required='N'/></message>\
<message name='MarketDataSnapshotFullRefresh' msgtype='W' msgcat='app'><field name='MDReqID' required='N'/><component name='Instrument' required='Y'/><group name='NoMDEntries' required='Y'><field name='MDEntryType' required='Y'/><field name='MDEntryPx' required='N'/><field name='MDEntrySize' required='N'/></group></message></messages>\
<trailer><field name='SignatureLength' required='N'/><field name='Signature' required='N'/><field name='CheckSum' required='Y'/></trailer>\
<components><component name='CommissionData'><field name='Commission' required='N'/><field name='CommType' required='N'/><field name='CommCurrency' required='N'/></component><component name='Instrument'><field name='Symbol' required='Y'/><field name='SecurityID' required='N'/><field name='SecurityIDSource' required='N'/><field name='MaturityMonthYear' required='N'/></component><component name='Parties'><group name='NoPartyIDs' required='N'><field name='PartyID' required='N'/><field name='PartyIDSource' required='N'/><field name='PartyRole' required='N'/><component name='PtysSubGrp' required='N'/></group></component><component name='PtysSubGrp'><group name='NoPartySubIDs' required='N'><field name='PartySubID' required='N'/><field name='PartySubIDType' required='N'/></group></component></components>\
<fields>\
<field number='1' name='Account' type='STRING'/>\
<field number='6' name='AvgPx' type='PRICE'/>\
<field number='7' name='BeginSeqNo' type='SEQNUM'/>\
<field number='8' name='BeginString' type='STRING'/>\
<field number='9' name='BodyLength' type='LENGTH'/>\
<field number='10' name='CheckSum' type='STRING'/>\
<field number='11' name='ClOrdID' type='STRING'/>\
<field number='12' name='Commission' type='AMT'/>\
<field number='13' name='CommType' type='CHAR'><value enum='1' description='PER_UNIT'/><value enum='2' description='PERCENT'/><value enum='3' description='ABSOLUTE'/></field>\
<field number='14' name='CumQty' type='QTY'/>\
<field number='15' name='Currency' type='CURRENCY'/>\
<field number='16' name='EndSeqNo' type='SEQNUM'/>\
<field number='17' name='ExecID' type='STRING'/>\
<field number='21' name='HandlInst' type='CHAR'><value enum='1' description='AUTOMATED_EXECUTION_ORDER_PRIVATE'/><value enum='2' description='AUTOMATED_EXECUTION_ORDER_PUBLIC'/><value enum='3' description='MANUAL_ORDER'/></field>\
<field number='22' name='SecurityIDSource' type='STRING'><value enum='1' description='CUSIP'/><value enum='2' description='SEDOL'/><value enum='4' description='ISIN_NUMBER'/></field>\
<field number='31' name='LastPx' type='PRICE'/>\
<field number='32' name='LastQty' type='QTY'/>\
<field number='34' name='MsgSeqNum' type='SEQNUM'/>\
<field number='35' name='MsgType' type='STRING'><value enum='0' description='HEARTBEAT'/><value enum='1' description='TEST_REQUEST'/><value enum='2' description='RESEND_REQUEST'/><value enum='3' description='REJECT'/><value enum='4' description='SEQUENCE_RESET'/><value enum='5' description='LOGOUT'/><value enum='8' description='EXECUTION_REPORT'/><value enum='9' description='ORDER_CANCEL_REJECT'/><value enum='A' description='LOGON'/><value enum='D' description='NEW_ORDER_SINGLE'/><value enum='F' description='ORDER_CANCEL_REQUEST'/><value enum='G' description='ORDER_CANCEL_REPLACE_REQUEST'/><value enum='J' description='ALLOCATION_INSTRUCTION'/><value enum='W' description='MARKET_DATA_SNAPSHOT_FULL_REFRESH'/></field>\
<field number='36' name='NewSeqNo' type='SEQNUM'/>\
<field number='37' name='OrderID' type='STRING'/>\
<field number='38' name='OrderQty' type='QTY'/>\
<field number='39' name='OrdStatus' type='CHAR'><value enum='0' description='NEW'/><value enum='1' description='PARTIALLY_FILLED'/><value enum='2' description='FILLED'/><value enum='3' description='DONE_FOR_DAY'/><value enum='4' description='CANCELED'/><value enum='5' description='REPLACED'/><value enum='6' description='PENDING_CANCEL'/><value enum='7' description='STOPPED'/><value enum='8' description='REJECTED'/><value enum='9' description='SUSPENDED'/><value enum='A' description='PENDING_NEW'/><value enum='B' description='CALCULATED'/><value enum='C' description='EXPIRED'/><value enum='D' description='ACCEPTED_FOR_BIDDING'/><value enum='E' description='PENDING_REPLACE'/></field>\
<field number='40' name='OrdType' type='CHAR'><value enum='1' description='MARKET'/><value enum='2' description='LIMIT'/><value enum='3' description='STOP'/><value enum='4' description='STOP_LIMIT'/></field>\
<field number='41' name='OrigClOrdID' type='STRING'/>\
<field number='43' name='PossDupFlag' type='BOOLEAN'><value enum='N' description='ORIGINAL_TRANSMISSION'/><value enum='Y' description='POSSIBLE_DUPLICATE'/></field>\
<field number='44' name='Price' type='PRICE'/>\
<field number='45' name='RefSeqNum' type='SEQNUM'/>\
<field number='48' name='SecurityID' type='STRING'/>\
<field number='49' name='SenderCompID' type='STRING'/>\
<field number='50' name='SenderSubID' type='STRING'/>\
<field number='52' name='SendingTime' type='UTCTIMESTAMP'/>\
<field number='54' name='Side' type='CHAR'><value enum='1' description='BUY'/><value enum='2' description='SELL'/><value enum='3' description='BUY_MINUS'/><value enum='4' description='SELL_PLUS'/><value enum='5' description='SELL_SHORT'/></field>\
<field number='55' name='Symbol' type='STRING'/>\
<field number='56' name='TargetCompID' type='STRING'/>\
<field number='57' name='TargetSubID' type='STRING'/>\
<field number='58' name='Text' type='STRING'/>\
<field number='59' name='TimeInForce' type='CHAR'><value enum='0' description='DAY'/><value enum='1' description='GOOD_TILL_CANCEL'/><value enum='3' description='IMMEDIATE_OR_CANCEL'/><value enum='4' description='FILL_OR_KILL'/></field>\
<field number='60' name='TransactTime' type='UTCTIMESTAMP'/>\
<field number='63' name='SettlType' type='CHAR'/>\
<field number='64' name='SettlDate' type='LOCALMKTDATE'/>\
<field number='70' name='AllocID' type='STRING'/>\
<field number='71' name='AllocTransType' type='CHAR'><value enum='0' description='NEW'/><value enum='1' description='REPLACE'/><value enum='2' description='CANCEL'/></field>\
<field number='73' name='NoOrders' type='NUMINGROUP'/>\
<field number='75' name='TradeDate' type='LOCALMKTDATE'/>\
<field number='78' name='NoAllocs' type='NUMINGROUP'/>\
<field number='79' name='AllocAccount' type='STRING'/>\
<field number='80' name='AllocQty' type='QTY'/>\
<field number='89' name='Signature' type='DATA'/>\
<field number='93' name='SignatureLength' type='LENGTH'/>\
<field number='97' name='PossResend' type='BOOLEAN'/>\
<field number='98' name='EncryptMethod' type='INT'><value enum='0' description='NONE_OTHER'/><value enum='1' description='PKCS'/></field>\
<field number='102' name='CxlRejReason' type='INT'><value enum='0' description='TOO_LATE_TO_CANCEL'/><value enum='1' description='UNKNOWN_ORDER'/></field>\
<field number='108' name='HeartBtInt' type='INT'/>\
<field number='112' name='TestReqID' type='STRING'/>\
<field number='115' name='OnBehalfOfCompID' type='STRING'/>\
<field number='122' name='OrigSendingTime' type='UTCTIMESTAMP'/>\
<field number='123' name='GapFillFlag' type='BOOLEAN'/>\
<field number='128' name='DeliverToCompID' type='STRING'/>\
<field number='141' name='ResetSeqNumFlag' type='BOOLEAN'/>\
<field number='150' name='ExecType' type='CHAR'><value enum='0' description='NEW'/><value enum='3' description='DONE_FOR_DAY'/><value enum='4' description='CANCELED'/><value enum='5' description='REPLACED'/><value enum='6' description='PENDING_CANCEL'/><value enum='8' description='REJECTED'/><value enum='A' description='PENDING_NEW'/><value enum='C' description='EXPIRED'/><value enum='E' description='PENDING_REPLACE'/><value enum='F' description='TRADE'/></field>\
<field number='151' name='LeavesQty' type='QTY'/>\
<field number='200' name='MaturityMonthYear' type='MONTHYEAR'/>\
<field number='262' name='MDReqID' type='STRING'/>\
<field number='268' name='NoMDEntries' type='NUMINGROUP'/>\
<field number='269' name='MDEntryType' type='CHAR'><value enum='0' description='BID'/><value enum='1' description='OFFER'/><value enum='2' description='TRADE'/></field>\
<field number='270' name='MDEntryPx' type='PRICE'/>\
<field number='271' name='MDEntrySize' type='QTY'/>\
<field number='371' name='RefTagID' type='INT'/>\
<field number='372' name='RefMsgType' type='STRING'/>\
<field number='373' name='SessionRejectReason' type='INT'><value enum='0' description='INVALID_TAG_NUMBER'/><value enum='1' description='REQUIRED_TAG_MISSING'/></field>\
<field number='434' name='CxlRejResponseTo' type='CHAR'><value enum='1' description='ORDER_CANCEL_REQUEST'/><value enum='2' description='ORDER_CANCEL_REPLACE_REQUEST'/></field>\
<field number='447' name='PartyIDSource' type='CHAR'><value enum='B' description='BIC'/><value enum='C' description='GENERALLY_ACCEPTED_MARKET_PARTICIPANT_IDENTIFIER'/><value enum='D' description='PROPRIETARY_CUSTOM_CODE'/></field>\
<field number='448' name='PartyID' type='STRING'/>\
<field number='452' name='PartyRole' type='INT'><value enum='1' description='EXECUTING_FIRM'/><value enum='3' description='CLIENT_ID'/><value enum='11' description='ORDER_ORIGINATION_TRADER'/></field>\
<field number='453' name='NoPartyIDs' type='NUMINGROUP'/>\
<field number='479' name='CommCurrency' type='CURRENCY'/>\
<field number='523' name='PartySubID' type='STRING'/>\
<field number='626' name='AllocType' type='INT'><value enum='1' description='CALCULATED'/><value enum='2' description='PRELIMINARY'/></field>\
<field number='802' name='NoPartySubIDs' type='NUMINGROUP'/>\
<field number='803' name='PartySubIDType' type='INT'/>\
<field number='857' name='AllocNoOrdersType' type='INT'><value enum='0' description='NOT_SPECIFIED'/><value enum='1' description='EXPLICIT_LIST_PROVIDED'/></field></fields></fix>";

pub const FIX50_XML: &'static str = "<fix type='FIX' major='5' minor='0' servicepack='0'><header></header><messages>\
<message name='ExecutionReport' msgtype='8' msgcat='app'><field name='OrderID' required='Y'/><field name='ClOrdID' required='N'/><field name='OrigClOrdID' required='N'/><component name='Parties' required='N'/><field name='ExecID' required='Y'/><field name='ExecType' required='Y'/><field name='OrdStatus' required='Y'/><field name='Account' required='N'/><component name='Instrument' required='Y'/><field name='Side' required='Y'/><field name='OrderQty' required='N'/><field name='OrdType' required='N'/><field name='Price' required='N'/><field name='Currency' required='N'/><field name='LastQty' required='N'/><field name='LastPx' required='N'/><field name='LeavesQty' required='Y'/><field name='CumQty' required='Y'/><field name='AvgPx' required='Y'/><field name='TradeDate' required='N'/><field name='TransactTime' required='N'/><field name='SettlType' required='N'/><field name='SettlDate' required='N'/><field name='Text' required='N'/></message>\
<message name='OrderCancelReject' msgtype='9' msgcat='app'><field name='OrderID' required='Y'/><field name='ClOrdID' required='Y'/><field name='OrigClOrdID' required='Y'/><field name='OrdStatus' required='Y'/><field name='CxlRejResponseTo' required='N'/><field name='CxlRejReason' required='N'/><field name='Text' required='N'/></message>\
<message name='NewOrderSingle' msgtype='D' msgcat='app'><field name='ClOrdID' required='Y'/><component name='Parties' required='N'/><field name='Account' required='N'/><field name='SettlType' required='N'/><field name='SettlDate' required='N'/><group name='NoAllocs' required='N'><field name='AllocAccount' required='N'/><field name='AllocQty' required='N'/></group><field name='HandlInst' required='N'/><component name='Instrument' required='Y'/><field name='Side' required='Y'/><field name='TransactTime' required='Y'/><field name='OrderQty' required='N'/><field name='OrdType' required='Y'/><field name='Price' required='N'/><field name='Currency' required='N'/><field name='TimeInForce' required='N'/><component name='CommissionData' required='N'/><field name='TradeDate' required='N'/><field name='Text' required='N'/></message>\
<message name='OrderCancelRequest' msgtype='F' msgcat='app'><field name='OrigClOrdID' required='Y'/><field name='OrderID' required='N'/><field name='ClOrdID' required='Y'/><component name='Instrument' required='Y'/><field name='Side' required='Y'/><field name='TransactTime' required='Y'/><field name='OrderQty' required='N'/><field name='Text' required='N'/></message>\
<message name='OrderCancelReplaceRequest' msgtype='G' msgcat='app'><field name='OrderID' required='N'/><field name='OrigClOrdID' required='Y'/><field name='ClOrdID' required='Y'/><field name='HandlInst' required='N'/><component name='Instrument' required='Y'/><field name='Side' required='Y'/><field name='TransactTime' required='Y'/><field name='OrderQty' required='N'/><field name='OrdType' required='Y'/><field name='Price' required='N'/><field name='Text' required='N'/></message>\
<message name='AllocationInstruction' msgtype='J' msgcat='app'><field name='AllocID' required='Y'/><field name='AllocTransType' required='Y'/><field name='AllocType' required='N'/><field name='AllocNoOrdersType' required='N'/><group name='NoOrders' required='N'><field name='ClOrdID' required='N'/><field name='OrderID' required='N'/></group><field name='Side' required='Y'/><component name='Instrument' required='Y'/><field name='OrderQty' required='N'/><field name='AvgPx' required='Y'/><field name='TradeDate' required='Y'/><group name='NoAllocs' required='N'><field name='AllocAccount' required='N'/><field name='AllocQty' required='N'/></group><field name='Text' required='N'/></message>\
<message name='MarketDataSnapshotFullRefresh' msgtype='W' msgcat='app'><field name='MDReqID' required='N'/><component name='Instrument' required='Y'/><group name='NoMDEntries' required='Y'><field name='MDEntryType' required='Y'/><field name='MDEntryPx' required='N'/><field name='MDEntrySize' required='N'/></group></message></messages>\
<trailer></trailer>\
<components><component name='CommissionData'><field name='Commission' required='N'/><field name='CommType' required='N'/><field name='CommCurrency' required='N'/></component><component name='Instrument'><field name='Symbol' required='Y'/><field name='SecurityID' required='N'/><field name='SecurityIDSource' required='N'/><field name='MaturityMonthYear' required='N'/></component><component name='Parties'><group name='NoPartyIDs' required='N'><field name='PartyID' required='N'/><field name='PartyIDSource' required='N'/><field name='PartyRole' required='N'/><component name='PtysSubGrp' required='N'/></group></component><component name='PtysSubGrp'><group name='NoPartySubIDs' required='N'><field name='PartySubID' required='N'/><field name='PartySubIDType' required='N'/></group></component></components>\
<fields>\
<field number='1' name='Account' type='STRING'/>\
<field number='6' name='AvgPx' type='PRICE'/>\
<field number='11' name='ClOrdID' type='STRING'/>\
<field number='12' name='Commission' type='AMT'/>\
<field number='13' name='CommType' type='CHAR'><value enum='1' description='PER_UNIT'/><value enum='2' description='PERCENT'/><value enum='3' description='ABSOLUTE'/></field>\
<field number='14' name='CumQty' type='QTY'/>\
<field number='15' name='Currency' type='CURRENCY'/>\
<field number='17' name='ExecID' type='STRING'/>\
<field number='21' name='HandlInst' type='CHAR'><value enum='1' description='AUTOMATED_EXECUTION_ORDER_PRIVATE'/><value enum='2' description='AUTOMATED_EXECUTION_ORDER_PUBLIC'/><value enum='3' description='MANUAL_ORDER'/></field>\
<field number='22' name='SecurityIDSource' type='STRING'><value enum='1' description='CUSIP'/><value enum='2' description='SEDOL'/><value enum='4' description='ISIN_NUMBER'/></field>\
<field number='31' name='LastPx' type='PRICE'/>\
<field number='32' name='LastQty' type='QTY'/>\
<field number='35' name='MsgType' type='STRING'><value enum='8' description='EXECUTION_REPORT'/><value enum='9' description='ORDER_CANCEL_REJECT'/><value enum='D' description='NEW_ORDER_SINGLE'/><value enum='F' description='ORDER_CANCEL_REQUEST'/><value enum='G' description='ORDER_CANCEL_REPLACE_REQUEST'/><value enum='J' description='ALLOCATION_INSTRUCTION'/><value enum='W' description='MARKET_DATA_SNAPSHOT_FULL_REFRESH'/></field>\
<field number='37' name='OrderID' type='STRING'/>\
<field number='38' name='OrderQty' type='QTY'/>\
<field number='39' name='OrdStatus' type='CHAR'><value enum='0' description='NEW'/><value enum='1' description='PARTIALLY_FILLED'/><value enum='2' description='FILLED'/><value enum='3' description='DONE_FOR_DAY'/><value enum='4' description='CANCELED'/><value enum='5' description='REPLACED'/><value enum='6' description='PENDING_CANCEL'/><value enum='7' description='STOPPED'/><value enum='8' description='REJECTED'/><value enum='9' description='SUSPENDED'/><value enum='A' description='PENDING_NEW'/><value enum='B' description='CALCULATED'/><value enum='C' description='EXPIRED'/><value enum='D' description='ACCEPTED_FOR_BIDDING'/><value enum='E' description='PENDING_REPLACE'/></field>\
<field number='40' name='OrdType' type='CHAR'><value enum='1' description='MARKET'/><value enum='2' description='LIMIT'/><value enum='3' description='STOP'/><value enum='4' description='STOP_LIMIT'/></field>\
<field number='41' name='OrigClOrdID' type='STRING'/>\
<field number='44' name='Price' type='PRICE'/>\
<field number='48' name='SecurityID' type='STRING'/>\
<field number='54' name='Side' type='CHAR'><value enum='1' description='BUY'/><value enum='2' description='SELL'/><value enum='3' description='BUY_MINUS'/><value enum='4' description='SELL_PLUS'/><value enum='5' description='SELL_SHORT'/></field>\
<field number='55' name='Symbol' type='STRING'/>\
<field number='58' name='Text' type='STRING'/>\
<field number='59' name='TimeInForce' type='CHAR'><value enum='0' description='DAY'/><value enum='1' description='GOOD_TILL_CANCEL'/><value enum='3' description='IMMEDIATE_OR_CANCEL'/><value enum='4' description='FILL_OR_KILL'/></field>\
<field number='60' name='TransactTime' type='UTCTIMESTAMP'/>\
<field number='63' name='SettlType' type='CHAR'/>\
<field number='64' name='SettlDate' type='LOCALMKTDATE'/>\
<field number='70' name='AllocID' type='STRING'/>\
<field number='71' name='AllocTransType' type='CHAR'><value enum='0' description='NEW'/><value enum='1' description='REPLACE'/><value enum='2' description='CANCEL'/></field>\
<field number='73' name='NoOrders' type='NUMINGROUP'/>\
<field number='75' name='TradeDate' type='LOCALMKTDATE'/>\
<field number='78' name='NoAllocs' type='NUMINGROUP'/>\
<field number='79' name='AllocAccount' type='STRING'/>\
<field number='80' name='AllocQty' type='QTY'/>\
<field number='102' name='CxlRejReason' type='INT'><value enum='0' description='TOO_LATE_TO_CANCEL'/><value enum='1' description='UNKNOWN_ORDER'/></field>\
<field number='150' name='ExecType' type='CHAR'><value enum='0' description='NEW'/><value enum='3' description='DONE_FOR_DAY'/><value enum='4' description='CANCELED'/><value enum='5' description='REPLACED'/><value enum='6' description='PENDING_CANCEL'/><value enum='8' description='REJECTED'/><value enum='A' description='PENDING_NEW'/><value enum='C' description='EXPIRED'/><value enum='E' description='PENDING_REPLACE'/><value enum='F' description='TRADE'/></field>\
<field number='151' name='LeavesQty' type='QTY'/>\
<field number='200' name='MaturityMonthYear' type='MONTHYEAR'/>\
<field number='262' name='MDReqID' type='STRING'/>\
<field number='268' name='NoMDEntries' type='NUMINGROUP'/>\
<field number='269' name='MDEntryType' type='CHAR'><value enum='0' description='BID'/><value enum='1' description='OFFER'/><value enum='2' description='TRADE'/></field>\
<field number='270' name='MDEntryPx' type='PRICE'/>\
<field number='271' name='MDEntrySize' type='QTY'/>\
<field number='434' name='CxlRejResponseTo' type='CHAR'><value enum='1' description='ORDER_CANCEL_REQUEST'/><value enum='2' description='ORDER_CANCEL_REPLACE_REQUEST'/></field>\
<field number='447' name='PartyIDSource' type='CHAR'><value enum='B' description='BIC'/><value enum='C' description='GENERALLY_ACCEPTED_MARKET_PARTICIPANT_IDENTIFIER'/><value enum='D' description='PROPRIETARY_CUSTOM_CODE'/></field>\
<field number='448' name='PartyID' type='STRING'/>\
<field number='452' name='PartyRole' type='INT'><value enum='1' description='EXECUTING_FIRM'/><value enum='3' description='CLIENT_ID'/><value enum='11' description='ORDER_ORIGINATION_TRADER'/></field>\
<field number='453' name='NoPartyIDs' type='NUMINGROUP'/>\
<field number='479' name='CommCurrency' type='CURRENCY'/>\
<field number='523' name='PartySubID' type='STRING'/>\
<field number='626' name='AllocType' type='INT'><value enum='1' description='CALCULATED'/><value enum='2' description='PRELIMINARY'/></field>\
<field number='802' name='NoPartySubIDs' type='NUMINGROUP'/>\
<field number='803' name='PartySubIDType' type='INT'/>\
<field number='857' name='AllocNoOrdersType' type='INT'><value enum='0' description='NOT_SPECIFIED'/><value enum='1' description='EXPLICIT_LIST_PROVIDED'/></field>\
<field number='1128' name='ApplVerID' type='STRING'><value enum='0' description='FIX27'/><value enum='1' description='FIX30'/><value enum='2' description='FIX40'/><value enum='3' description='FIX41'/><value enum='4' description='FIX42'/><value enum='5' description='FIX43'/><value enum='6' description='FIX44'/><value enum='7' description='FIX50'/><value enum='8' description='FIX50SP1'/><value enum='9' description='FIX50SP2'/></field></fields></fix>";

pub const FIX50SP1_XML: &'static str = "<fix type='FIX' major='5' minor='0' servicepack='1'><header></header><messages>\
<message name='ExecutionReport' msgtype='8' msgcat='app'><field name='OrderID' required='Y'/><field name='ClOrdID' required='N'/><field name='OrigClOrdID' required='N'/><component name='Parties' required='N'/><field name='ExecID' required='Y'/><field name='ExecType' required='Y'/><field name='OrdStatus' required='Y'/><field name='Account' required='N'/><component name='Instrument' required='Y'/><field name='Side' required='Y'/><field name='OrderQty' required='N'/><field name='OrdType' required='N'/><field name='Price' required='N'/><field name='Currency' required='N'/><field name='LastQty' required='N'/><field name='LastPx' required='N'/><field name='LeavesQty' required='Y'/><field name='CumQty' required='Y'/><field name='AvgPx' required='Y'/><field name='TradeDate' required='N'/><field name='TransactTime' required='N'/><field name='SettlType' required='N'/><field name='SettlDate' required='N'/><field name='Text' required='N'/></message>\
<message name='OrderCancelReject' msgtype='9' msgcat='app'><field name='OrderID' required='Y'/><field name='ClOrdID' required='Y'/><field name='OrigClOrdID' required='Y'/><field name='OrdStatus' required='Y'/><field name='CxlRejResponseTo' required='N'/><field name='CxlRejReason' required='N'/><field name='Text' required='N'/></message>\
<message name='NewOrderSingle' msgtype='D' msgcat='app'><field name='ClOrdID' required='Y'/><component name='Parties' required='N'/><field name='Account' required='N'/><field name='SettlType' required='N'/><field name='SettlDate' required='N'/><group name='NoAllocs' required='N'><field name='AllocAccount' required='N'/><field name='AllocQty' required='N'/></group><field name='HandlInst' required='N'/><component name='Instrument' required='Y'/><field name='Side' required='Y'/><field name='TransactTime' required='Y'/><field name='OrderQty' required='N'/><field name='OrdType' required='Y'/><field name='Price' required='N'/><field name='Currency' required='N'/><field name='TimeInForce' required='N'/><component name='CommissionData' required='N'/><field name='TradeDate' required='N'/><field name='Text' required='N'/></message>\
<message name='OrderCancelRequest' msgtype='F' msgcat='app'><field name='OrigClOrdID' required='Y'/><field name='OrderID' required='N'/><field name='ClOrdID' required='Y'/><component name='Instrument' required='Y'/><field name='Side' required='Y'/><field name='TransactTime' required='Y'/><field name='OrderQty' required='N'/><field name='Text' required='N'/></message>\
<message name='OrderCancelReplaceRequest' msgtype='G' msgcat='app'><field name='OrderID' required='N'/><field name='OrigClOrdID' required='Y'/><field name='ClOrdID' required='Y'/><field name='HandlInst' required='N'/><component name='Instrument' required='Y'/><field name='Side' required='Y'/><field name='TransactTime' required='Y'/><field name='OrderQty' required='N'/><field name='OrdType' required='Y'/><field name='Price' required='N'/><field name='Text' required='N'/></message>\
<message name='AllocationInstruction' msgtype='J' msgcat='app'><field name='AllocID' required='Y'/><field name='AllocTransType' required='Y'/><field name='AllocType' required='N'/><field name='AllocNoOrdersType' required='N'/><group name='NoOrders' required='N'><field name='ClOrdID' required='N'/><field name='OrderID' required='N'/></group><field name='Side' required='Y'/><component name='Instrument' required='Y'/><field name='OrderQty' required='N'/><field name='AvgPx' required='Y'/><field name='TradeDate' required='Y'/><group name='NoAllocs' required='N'><field name='AllocAccount' required='N'/><field name='AllocQty' required='N'/></group><field name='Text' required='N'/></message>\
<message name='MarketDataSnapshotFullRefresh' msgtype='W' msgcat='app'><field name='MDReqID' required='N'/><component name='Instrument' required='Y'/><group name='NoMDEntries' required='Y'><field name='MDEntryType' required='Y'/><field name='MDEntryPx' required='N'/><field name='MDEntrySize' required='N'/></group></message></messages>\
<trailer></trailer>\
<components><component name='CommissionData'><field name='Commission' required='N'/><field name='CommType' required='N'/><field name='CommCurrency' required='N'/></component><component name='Instrument'><field name='Symbol' required='Y'/><field name='SecurityID' required='N'/><field name='SecurityIDSource' required='N'/><field name='MaturityMonthYear' required='N'/></component><component name='Parties'><group name='NoPartyIDs' required='N'><field name='PartyID' required='N'/><field name='PartyIDSource' required='N'/><field name='PartyRole' required='N'/><component name='PtysSubGrp' required='N'/></group></component><component name='PtysSubGrp'><group name='NoPartySubIDs' required='N'><field name='PartySubID' required='N'/><field name='PartySubIDType' required='N'/></group></component></components>\
<fields>\
<field number='1' name='Account' type='STRING'/>\
<field number='6' name='AvgPx' type='PRICE'/>\
<field number='11' name='ClOrdID' type='STRING'/>\
<field number='12' name='Commission' type='AMT'/>\
<field number='13' name='CommType' type='CHAR'><value enum='1' description='PER_UNIT'/><value enum='2' description='PERCENT'/><value enum='3' description='ABSOLUTE'/></field>\
<field number='14' name='CumQty' type='QTY'/>\
<field number='15' name='Currency' type='CURRENCY'/>\
<field number='17' name='ExecID' type='STRING'/>\
<field number='21' name='HandlInst' type='CHAR'><value enum='1' description='AUTOMATED_EXECUTION_ORDER_PRIVATE'/><value enum='2' description='AUTOMATED_EXECUTION_ORDER_PUBLIC'/><value enum='3' description='MANUAL_ORDER'/></field>\
<field number='22' name='SecurityIDSource' type='STRING'><value enum='1' description='CUSIP'/><value enum='2' description='SEDOL'/><value enum='4' description='ISIN_NUMBER'/></field>\
<field number='31' name='LastPx' type='PRICE'/>\
<field number='32' name='LastQty' type='QTY'/>\
<field number='35' name='MsgType' type='STRING'><value enum='8' description='EXECUTION_REPORT'/><value enum='9' description='ORDER_CANCEL_REJECT'/><value enum='D' description='NEW_ORDER_SINGLE'/><value enum='F' description='ORDER_CANCEL_REQUEST'/><value enum='G' description='ORDER_CANCEL_REPLACE_REQUEST'/><value enum='J' description='ALLOCATION_INSTRUCTION'/><value enum='W' description='MARKET_DATA_SNAPSHOT_FULL_REFRESH'/></field>\
<field number='37' name='OrderID' type='STRING'/>\
<field number='38' name='OrderQty' type='QTY'/>\
<field number='39' name='OrdStatus' type='CHAR'><value enum='0' description='NEW'/><value enum='1' description='PARTIALLY_FILLED'/><value enum='2' description='FILLED'/><value enum='3' description='DONE_FOR_DAY'/><value enum='4' description='CANCELED'/><value enum='5' description='REPLACED'/><value enum='6' description='PENDING_CANCEL'/><value enum='7' description='STOPPED'/><value enum='8' description='REJECTED'/><value enum='9' description='SUSPENDED'/><value enum='A' description='PENDING_NEW'/><value enum='B' description='CALCULATED'/><value enum='C' description='EXPIRED'/><value enum='D' description='ACCEPTED_FOR_BIDDING'/><value enum='E' description='PENDING_REPLACE'/></field>\
<field number='40' name='OrdType' type='CHAR'><value enum='1' description='MARKET'/><value enum='2' description='LIMIT'/><value enum='3' description='STOP'/><value enum='4' description='STOP_LIMIT'/></field>\
<field number='41' name='OrigClOrdID' type='STRING'/>\
<field number='44' name='Price' type='PRICE'/>\
<field number='48' name='SecurityID' type='STRING'/>\
<field number='54' name='Side' type='CHAR'><value enum='1' description='BUY'/><value enum='2' description='SELL'/><value enum='3' description='BUY_MINUS'/><value enum='4' description='SELL_PLUS'/><value enum='5' description='SELL_SHORT'/></field>\
<field number='55' name='Symbol' type='STRING'/>\
<field number='58' name='Text' type='STRING'/>\
<field number='59' name='TimeInForce' type='CHAR'><value enum='0' description='DAY'/><value enum='1' description='GOOD_TILL_CANCEL'/><value enum='3' description='IMMEDIATE_OR_CANCEL'/><value enum='4' description='FILL_OR_KILL'/></field>\
<field number='60' name='TransactTime' type='UTCTIMESTAMP'/>\
<field number='63' name='SettlType' type='CHAR'/>\
<field number='64' name='SettlDate' type='LOCALMKTDATE'/>\
<field number='70' name='AllocID' type='STRING'/>\
<field number='71' name='AllocTransType' type='CHAR'><value enum='0' description='NEW'/><value enum='1' description='REPLACE'/><value enum='2' description='CANCEL'/></field>\
<field number='73' name='NoOrders' type='NUMINGROUP'/>\
<field number='75' name='TradeDate' type='LOCALMKTDATE'/>\
<field number='78' name='NoAllocs' type='NUMINGROUP'/>\
<field number='79' name='AllocAccount' type='STRING'/>\
<field number='80' name='AllocQty' type='QTY'/>\
<field number='102' name='CxlRejReason' type='INT'><value enum='0' description='TOO_LATE_TO_CANCEL'/><value enum='1' description='UNKNOWN_ORDER'/></field>\
<field number='150' name='ExecType' type='CHAR'><value enum='0' description='NEW'/><value enum='3' description='DONE_FOR_DAY'/><value enum='4' description='CANCELED'/><value enum='5' description='REPLACED'/><value enum='6' description='PENDING_CANCEL'/><value enum='8' description='REJECTED'/><value enum='A' description='PENDING_NEW'/><value enum='C' description='EXPIRED'/><value enum='E' description='PENDING_REPLACE'/><value enum='F' description='TRADE'/></field>\
<field number='151' name='LeavesQty' type='QTY'/>\
<field number='200' name='MaturityMonthYear' type='MONTHYEAR'/>\
<field number='262' name='MDReqID' type='STRING'/>\
<field number='268' name='NoMDEntries' type='NUMINGROUP'/>\
<field number='269' name='MDEntryType' type='CHAR'><value enum='0' description='BID'/><value enum='1' description='OFFER'/><value enum='2' description='TRADE'/></field>\
<field number='270' name='MDEntryPx' type='PRICE'/>\
<field number='271' name='MDEntrySize' type='QTY'/>\
<field number='434' name='CxlRejResponseTo' type='CHAR'><value enum='1' description='ORDER_CANCEL_REQUEST'/><value enum='2' description='ORDER_CANCEL_REPLACE_REQUEST'/></field>\
<field number='447' name='PartyIDSource' type='CHAR'><value enum='B' description='BIC'/><value enum='C' description='GENERALLY_ACCEPTED_MARKET_PARTICIPANT_IDENTIFIER'/><value enum='D' description='PROPRIETARY_CUSTOM_CODE'/></field>\
<field number='448' name='PartyID' type='STRING'/>\
<field number='452' name='PartyRole' type='INT'><value enum='1' description='EXECUTING_FIRM'/><value enum='3' description='CLIENT_ID'/><value enum='11' description='ORDER_ORIGINATION_TRADER'/></field>\
<field number='453' name='NoPartyIDs' type='NUMINGROUP'/>\
<field number='479' name='CommCurrency' type='CURRENCY'/>\
<field number='523' name='PartySubID' type='STRING'/>\
<field number='626' name='AllocType' type='INT'><value enum='1' description='CALCULATED'/><value enum='2' description='PRELIMINARY'/></field>\
<field number='802' name='NoPartySubIDs' type='NUMINGROUP'/>\
<field number='803' name='PartySubIDType' type='INT'/>\
<field number='857' name='AllocNoOrdersType' type='INT'><value enum='0' description='NOT_SPECIFIED'/><value enum='1' description='EXPLICIT_LIST_PROVIDED'/></field>\
<field number='1128' name='ApplVerID' type='STRING'><value enum='0' description='FIX27'/><value enum='1' description='FIX30'/><value enum='2' description='FIX40'/><value enum='3' description='FIX41'/><value enum='4' description='FIX42'/><value enum='5' description='FIX43'/><value enum='6' description='FIX44'/><value enum='7' description='FIX50'/><value enum='8' description='FIX50SP1'/><value enum='9' description='FIX50SP2'/></field></fields></fix>";

pub const FIX50SP2_XML: &'static str = "<fix type='FIX' major='5' minor='0' servicepack='2'><header></header><messages>\
<message name='ExecutionReport' msgtype='8' msgcat='app'><field name='OrderID' required='Y'/><field name='ClOrdID' required='N'/><field name='OrigClOrdID' required='N'/><component name='Parties' required='N'/><field name='ExecID' required='Y'/><field name='ExecType' required='Y'/><field name='OrdStatus' required='Y'/><field name='Account' required='N'/><component name='Instrument' required='Y'/><field name='Side' required='Y'/><field name='OrderQty' required='N'/><field name='OrdType' required='N'/><field name='Price' required='N'/><field name='Currency' required='N'/><field name='LastQty' required='N'/><field name='LastPx' required='N'/><field name='LeavesQty' required='Y'/><field name='CumQty' required='Y'/><field name='AvgPx' required='Y'/><field name='TradeDate' required='N'/><field name='TransactTime' required='N'/><field name='SettlType' required='N'/><field name='SettlDate' required='N'/><field name='Text' required='N'/></message>\
<message name='OrderCancelReject' msgtype='9' msgcat='app'><field name='OrderID' required='Y'/><field name='ClOrdID' required='Y'/><field name='OrigClOrdID' required='Y'/><field name='OrdStatus' required='Y'/><field name='CxlRejResponseTo' required='N'/><field name='CxlRejReason' required='N'/><field name='Text' required='N'/></message>\
<message name='NewOrderSingle' msgtype='D' msgcat='app'><field name='ClOrdID' required='Y'/><component name='Parties' required='N'/><field name='Account' required='N'/><field name='SettlType' required='N'/><field name='SettlDate' required='N'/><group name='NoAllocs' required='N'><field name='AllocAccount' required='N'/><field name='AllocQty' required='N'/></group><field name='HandlInst' required='N'/><component name='Instrument' required='Y'/><field name='Side' required='Y'/><field name='TransactTime' required='Y'/><field name='OrderQty' required='N'/><field name='OrdType' required='Y'/><field name='Price' required='N'/><field name='Currency' required='N'/><field name='TimeInForce' required='N'/><component name='CommissionData' required='N'/><field name='TradeDate' required='N'/><field name='Text' required='N'/></message>\
<message name='OrderCancelRequest' msgtype='F' msgcat='app'><field name='OrigClOrdID' required='Y'/><field name='OrderID' required='N'/><field name='ClOrdID' required='Y'/><component name='Instrument' required='Y'/><field name='Side' required='Y'/><field name='TransactTime' required='Y'/><field name='OrderQty' required='N'/><field name='Text' required='N'/></message>\
<message name='OrderCancelReplaceRequest' msgtype='G' msgcat='app'><field name='OrderID' required='N'/><field name='OrigClOrdID' required='Y'/><field name='ClOrdID' required='Y'/><field name='HandlInst' required='N'/><component name='Instrument' required='Y'/><field name='Side' required='Y'/><field name='TransactTime' required='Y'/><field name='OrderQty' required='N'/><field name='OrdType' required='Y'/><field name='Price' required='N'/><field name='Text' required='N'/></message>\
<message name='AllocationInstruction' msgtype='J' msgcat='app'><field name='AllocID' required='Y'/><field name='AllocTransType' required='Y'/><field name='AllocType' required='N'/><field name='AllocNoOrdersType' required='N'/><group name='NoOrders' required='N'><field name='ClOrdID' required='N'/><field name='OrderID' required='N'/></group><field name='Side' required='Y'/><component name='Instrument' required='Y'/><field name='OrderQty' required='N'/><field name='AvgPx' required='Y'/><field name='TradeDate' required='Y'/><group name='NoAllocs' required='N'><field name='AllocAccount' required='N'/><field name='AllocQty' required='N'/></group><field name='Text' required='N'/></message>\
<message name='MarketDataSnapshotFullRefresh' msgtype='W' msgcat='app'><field name='MDReqID' required='N'/><component name='Instrument' required='Y'/><group name='NoMDEntries' required='Y'><field name='MDEntryType' required='Y'/><field name='MDEntryPx' required='N'/><field name='MDEntrySize' required='N'/></group></message></messages>\
<trailer></trailer>\
<components><component name='CommissionData'><field name='Commission' required='N'/><field name='CommType' required='N'/><field name='CommCurrency' required='N'/></component><component name='Instrument'><field name='Symbol' required='Y'/><field name='SecurityID' required='N'/><field name='SecurityIDSource' required='N'/><field name='MaturityMonthYear' required='N'/></component><component name='Parties'><group name='NoPartyIDs' required='N'><field name='PartyID' required='N'/><field name='PartyIDSource' required='N'/><field name='PartyRole' required='N'/><component name='PtysSubGrp' required='N'/></group></component><component name='PtysSubGrp'><group name='NoPartySubIDs' required='N'><field name='PartySubID' required='N'/><field name='PartySubIDType' required='N'/></group></component></components>\
<fields>\
<field number='1' name='Account' type='STRING'/>\
<field number='6' name='AvgPx' type='PRICE'/>\
<field number='11' name='ClOrdID' type='STRING'/>\
<field number='12' name='Commission' type='AMT'/>\
<field number='13' name='CommType' type='CHAR'><value enum='1' description='PER_UNIT'/><value enum='2' description='PERCENT'/><value enum='3' description='ABSOLUTE'/></field>\
<field number='14' name='CumQty' type='QTY'/>\
<field number='15' name='Currency' type='CURRENCY'/>\
<field number='17' name='ExecID' type='STRING'/>\
<field number='21' name='HandlInst' type='CHAR'><value enum='1' description='AUTOMATED_EXECUTION_ORDER_PRIVATE'/><value enum='2' description='AUTOMATED_EXECUTION_ORDER_PUBLIC'/><value enum='3' description='MANUAL_ORDER'/></field>\
<field number='22' name='SecurityIDSource' type='STRING'><value enum='1' description='CUSIP'/><value enum='2' description='SEDOL'/><value enum='4' description='ISIN_NUMBER'/></field>\
<field number='31' name='LastPx' type='PRICE'/>\
<field number='32' name='LastQty' type='QTY'/>\
<field number='35' name='MsgType' type='STRING'><value enum='8' description='EXECUTION_REPORT'/><value enum='9' description='ORDER_CANCEL_REJECT'/><value enum='D' description='NEW_ORDER_SINGLE'/><value enum='F' description='ORDER_CANCEL_REQUEST'/><value enum='G' description='ORDER_CANCEL_REPLACE_REQUEST'/><value enum='J' description='ALLOCATION_INSTRUCTION'/><value enum='W' description='MARKET_DATA_SNAPSHOT_FULL_REFRESH'/></field>\
<field number='37' name='OrderID' type='STRING'/>\
<field number='38' name='OrderQty' type='QTY'/>\
<field number='39' name='OrdStatus' type='CHAR'><value enum='0' description='NEW'/><value enum='1' description='PARTIALLY_FILLED'/><value enum='2' description='FILLED'/><value enum='3' description='DONE_FOR_DAY'/><value enum='4' description='CANCELED'/><value enum='5' description='REPLACED'/><value enum='6' description='PENDING_CANCEL'/><value enum='7' description='STOPPED'/><value enum='8' description='REJECTED'/><value enum='9' description='SUSPENDED'/><value enum='A' description='PENDING_NEW'/><value enum='B' description='CALCULATED'/><value enum='C' description='EXPIRED'/><value enum='D' description='ACCEPTED_FOR_BIDDING'/><value enum='E' description='PENDING_REPLACE'/></field>\
<field number='40' name='OrdType' type='CHAR'><value enum='1' description='MARKET'/><value enum='2' description='LIMIT'/><value enum='3' description='STOP'/><value enum='4' description='STOP_LIMIT'/></field>\
<field number='41' name='OrigClOrdID' type='STRING'/>\
<field number='44' name='Price' type='PRICE'/>\
<field number='48' name='SecurityID' type='STRING'/>\
<field number='54' name='Side' type='CHAR'><value enum='1' description='BUY'/><value enum='2' description='SELL'/><value enum='3' description='BUY_MINUS'/><value enum='4' description='SELL_PLUS'/><value enum='5' description='SELL_SHORT'/></field>\
<field number='55' name='Symbol' type='STRING'/>\
<field number='58' name='Text' type='STRING'/>\
<field number='59' name='TimeInForce' type='CHAR'><value enum='0' description='DAY'/><value enum='1' description='GOOD_TILL_CANCEL'/><value enum='3' description='IMMEDIATE_OR_CANCEL'/><value enum='4' description='FILL_OR_KILL'/></field>\
<field number='60' name='TransactTime' type='UTCTIMESTAMP'/>\
<field number='63' name='SettlType' type='CHAR'/>\
<field number='64' name='SettlDate' type='LOCALMKTDATE'/>\
<field number='70' name='AllocID' type='STRING'/>\
<field number='71' name='AllocTransType' type='CHAR'><value enum='0' description='NEW'/><value enum='1' description='REPLACE'/><value enum='2' description='CANCEL'/></field>\
<field number='73' name='NoOrders' type='NUMINGROUP'/>\
<field number='75' name='TradeDate' type='LOCALMKTDATE'/>\
<field number='78' name='NoAllocs' type='NUMINGROUP'/>\
<field number='79' name='AllocAccount' type='STRING'/>\
<field number='80' name='AllocQty' type='QTY'/>\
<field number='102' name='CxlRejReason' type='INT'><value enum='0' description='TOO_LATE_TO_CANCEL'/><value enum='1' description='UNKNOWN_ORDER'/></field>\
<field number='150' name='ExecType' type='CHAR'><value enum='0' description='NEW'/><value enum='3' description='DONE_FOR_DAY'/><value enum='4' description='CANCELED'/><value enum='5' description='REPLACED'/><value enum='6' description='PENDING_CANCEL'/><value enum='8' description='REJECTED'/><value enum='A' description='PENDING_NEW'/><value enum='C' description='EXPIRED'/><value enum='E' description='PENDING_REPLACE'/><value enum='F' description='TRADE'/></field>\
<field number='151' name='LeavesQty' type='QTY'/>\
<field number='200' name='MaturityMonthYear' type='MONTHYEAR'/>\
<field number='262' name='MDReqID' type='STRING'/>\
<field number='268' name='NoMDEntries' type='NUMINGROUP'/>\
<field number='269' name='MDEntryType' type='CHAR'><value enum='0' description='BID'/><value enum='1' description='OFFER'/><value enum='2' description='TRADE'/></field>\
<field number='270' name='MDEntryPx' type='PRICE'/>\
<field number='271' name='MDEntrySize' type='QTY'/>\
<field number='434' name='CxlRejResponseTo' type='CHAR'><value enum='1' description='ORDER_CANCEL_REQUEST'/><value enum='2' description='ORDER_CANCEL_REPLACE_REQUEST'/></field>\
<field number='447' name='PartyIDSource' type='CHAR'><value enum='B' description='BIC'/><value enum='C' description='GENERALLY_ACCEPTED_MARKET_PARTICIPANT_IDENTIFIER'/><value enum='D' description='PROPRIETARY_CUSTOM_CODE'/></field>\
<field number='448' name='PartyID' type='STRING'/>\
<field number='452' name='PartyRole' type='INT'><value enum='1' description='EXECUTING_FIRM'/><value enum='3' description='CLIENT_ID'/><value enum='11' description='ORDER_ORIGINATION_TRADER'/></field>\
<field number='453' name='NoPartyIDs' type='NUMINGROUP'/>\
<field number='479' name='CommCurrency' type='CURRENCY'/>\
<field number='523' name='PartySubID' type='STRING'/>\
<field number='626' name='AllocType' type='INT'><value enum='1' description='CALCULATED'/><value enum='2' description='PRELIMINARY'/></field>\
<field number='802' name='NoPartySubIDs' type='NUMINGROUP'/>\
<field number='803' name='PartySubIDType' type='INT'/>\
<field number='857' name='AllocNoOrdersType' type='INT'><value enum='0' description='NOT_SPECIFIED'/><value enum='1' description='EXPLICIT_LIST_PROVIDED'/></field>\
<field number='1128' name='ApplVerID' type='STRING'><value enum='0' description='FIX27'/><value enum='1' description='FIX30'/><value enum='2' description='FIX40'/><value enum='3' description='FIX41'/><value enum='4' description='FIX42'/><value enum='5' description='FIX43'/><value enum='6' description='FIX44'/><value enum='7' description='FIX50'/><value enum='8' description='FIX50SP1'/><value enum='9' description='FIX50SP2'/></field></fields></fix>";

pub const FIXT11_XML: &'static str = "<fix type='FIXT' major='1' minor='1' servicepack='0'><header><field name='BeginString' required='Y'/><field name='BodyLength' required='Y'/><field name='MsgType' required='Y'/><field name='ApplVerID' required='N'/><field name='CstmApplVerID' required='N'/><field name='SenderCompID' required='Y'/><field name='TargetCompID' required='Y'/><field name='OnBehalfOfCompID' required='N'/><field name='DeliverToCompID' required='N'/><field name='MsgSeqNum' required='Y'/><field name='SenderSubID' required='N'/><field name='TargetSubID' required='N'/><field name='PossDupFlag' required='N'/><field name='PossResend' required='N'/><field name='SendingTime' required='Y'/><field name='OrigSendingTime' required='N'/></header><messages>\
<message name='Heartbeat' msgtype='0' msgcat='admin'><field name='TestReqID' required='N'/></message>\
<message name='TestRequest' msgtype='1' msgcat='admin'><field name='TestReqID' required='Y'/></message>\
<message name='ResendRequest' msgtype='2' msgcat='admin'><field name='BeginSeqNo' required='Y'/><field name='EndSeqNo' required='Y'/></message>\
<message name='Reject' msgtype='3' msgcat='admin'><field name='RefSeqNum' required='Y'/><field name='RefTagID' required='N'/><field name='RefMsgType' required='N'/><field name='SessionRejectReason' required='N'/><field name='Text' required='N'/></message>\
<message name='SequenceReset' msgtype='4' msgcat='admin'><field name='GapFillFlag' required='N'/><field name='NewSeqNo' required='Y'/></message>\
<message name='Logout' msgtype='5' msgcat='admin'><field name='Text' required='N'/></message>\
<message name='Logon' msgtype='A' msgcat='admin'><field name='EncryptMethod' required='Y'/><field name='HeartBtInt' required='Y'/><field name='ResetSeqNumFlag' required='N'/><field name='DefaultApplVerID' required='Y'/></message></messages>\
<trailer><field name='SignatureLength' required='N'/><field name='Signature' required='N'/><field name='CheckSum' required='Y'/></trailer>\
<components/>\
<fields>\
<field number='7' name='BeginSeqNo' type='SEQNUM'/>\
<field number='8' name='BeginString' type='STRING'/>\
<field number='9' name='BodyLength' type='LENGTH'/>\
<field number='10' name='CheckSum' type='STRING'/>\
<field number='16' name='EndSeqNo' type='SEQNUM'/>\
<field number='34' name='MsgSeqNum' type='SEQNUM'/>\
<field number='35' name='MsgType' type='STRING'><value enum='0' description='HEARTBEAT'/><value enum='1' description='TEST_REQUEST'/><value enum='2' description='RESEND_REQUEST'/><value enum='3' description='REJECT'/><value enum='4' description='SEQUENCE_RESET'/><value enum='5' description='LOGOUT'/><value enum='A' description='LOGON'/></field>\
<field number='36' name='NewSeqNo' type='SEQNUM'/>\
<field number='43' name='PossDupFlag' type='BOOLEAN'><value enum='N' description='ORIGINAL_TRANSMISSION'/><value enum='Y' description='POSSIBLE_DUPLICATE'/></field>\
<field number='45' name='RefSeqNum' type='SEQNUM'/>\
<field number='49' name='SenderCompID' type='STRING'/>\
<field number='50' name='SenderSubID' type='STRING'/>\
<field number='52' name='SendingTime' type='UTCTIMESTAMP'/>\
<field number='56' name='TargetCompID' type='STRING'/>\
<field number='57' name='TargetSubID' type='STRING'/>\
<field number='58' name='Text' type='STRING'/>\
<field number='89' name='Signature' type='DATA'/>\
<field number='93' name='SignatureLength' type='LENGTH'/>\
<field number='97' name='PossResend' type='BOOLEAN'/>\
<field number='98' name='EncryptMethod' type='INT'><value enum='0' description='NONE_OTHER'/><value enum='1' description='PKCS'/></field>\
<field number='108' name='HeartBtInt' type='INT'/>\
<field number='112' name='TestReqID' type='STRING'/>\
<field number='115' name='OnBehalfOfCompID' type='STRING'/>\
<field number='122' name='OrigSendingTime' type='UTCTIMESTAMP'/>\
<field number='123' name='GapFillFlag' type='BOOLEAN'/>\
<field number='128' name='DeliverToCompID' type='STRING'/>\
<field number='141' name='ResetSeqNumFlag' type='BOOLEAN'/>\
<field number='371' name='RefTagID' type='INT'/>\
<field number='372' name='RefMsgType' type='STRING'/>\
<field number='373' name='SessionRejectReason' type='INT'><value enum='0' description='INVALID_TAG_NUMBER'/><value enum='1' description='REQUIRED_TAG_MISSING'/></field>\
<field number='1128' name='ApplVerID' type='STRING'><value enum='0' description='FIX27'/><value enum='1' description='FIX30'/><value enum='2' description='FIX40'/><value enum='3' description='FIX41'/><value enum='4' description='FIX42'/><value enum='5' description='FIX43'/><value enum='6' description='FIX44'/><value enum='7' description='FIX50'/><value enum='8' description='FIX50SP1'/><value enum='9' description='FIX50SP2'/></field>\
<field number='1129' name='CstmApplVerID' type='STRING'/>\
<field number='1137' name='DefaultApplVerID' type='STRING'/></fields></fix>";

} // verus!
