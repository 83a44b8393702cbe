//! The language packs built into the highlighter, in the pack text format
//! (see `pack`). Each pack lists its aliases first; a fence resolves to the
//! first pack that has its normalized name as an alias.
use vstd::prelude::*;

verus! {

/// Rust.
pub const RUST_PACK: &'static str = "STREAMDOWN_LANGPACK\t1\naliases\trust\trs\nkeywords\tas\tasync\tawait\tbreak\tconst\tcontinue\tcrate\tdyn\telse\tenum\textern\tfalse\tfn\tfor\tif\timpl\tin\tlet\tloop\tmacro\tmatch\tmod\tmove\tmut\tpub\tref\treturn\tself\tSelf\tstatic\tstruct\tsuper\ttrait\ttrue\ttype\tunion\tunsafe\tuse\twhere\twhile\tyield\nbuiltin_types\tbool\tchar\tstr\tu8\tu16\tu32\tu64\tu128\tusize\ti8\ti16\ti32\ti64\ti128\tisize\tf32\tf64\nfunction_declarations\tfn\ntype_declarations\tstruct\tenum\ttrait\ttype\tunion\nmacro_declarations\tmacro\nbang_macro_declarations\tmacro_rules\nflags\tslash_comments\tblock_comments\tnested_block_comments\trust_syntax\tmultiline_strings\trust_attributes\tbang_macros\tmacro_metavariables\n";

/// Python.
pub const PYTHON_PACK: &'static str = "STREAMDOWN_LANGPACK\t1\naliases\tpython\tpy\tpython3\tpython2\nkeywords\tFalse\tNone\tTrue\tand\tas\tassert\tasync\tawait\tbreak\tclass\tcontinue\tdef\tdel\telif\telse\texcept\tfinally\tfor\tfrom\tglobal\tif\timport\tin\tis\tlambda\tnonlocal\tnot\tor\tpass\traise\treturn\ttry\twhile\twith\tyield\tmatch\tcase\nbuiltin_types\tint\tfloat\tcomplex\tstr\tbool\tbytes\tbytearray\tlist\tdict\tset\tfrozenset\ttuple\tobject\nfunction_declarations\tdef\ntype_declarations\tclass\nflags\thash_comments\tpython_strings\tdecorators\n";

/// JavaScript and TypeScript.
pub const JAVASCRIPT_PACK: &'static str = "STREAMDOWN_LANGPACK\t1\naliases\tjavascript\tjs\tjsx\tmjs\tcjs\tnode\tts\ttsx\ttypescript\tmts\tcts\nkeywords\tbreak\tcase\tcatch\tclass\tconst\tcontinue\tdebugger\tdefault\tdelete\tdo\telse\texport\textends\tfinally\tfor\tfunction\tif\timport\tin\tinstanceof\tlet\tnew\treturn\tsuper\tswitch\tthis\tthrow\ttry\ttypeof\tvar\tvoid\twhile\twith\tyield\tasync\tawait\tof\tstatic\tinterface\ttype\tenum\timplements\tnamespace\tdeclare\treadonly\tabstract\tprivate\tprotected\tpublic\tas\ttrue\tfalse\tnull\tundefined\nbuiltin_types\tstring\tnumber\tboolean\tany\tunknown\tnever\tobject\tsymbol\tbigint\nfunction_declarations\tfunction\ntype_declarations\tclass\tinterface\ttype\tenum\nexpression_prefixes\treturn\ttypeof\tinstanceof\tin\tof\tnew\tdelete\tvoid\tthrow\tcase\tdo\telse\tyield\tawait\nflags\tslash_comments\tblock_comments\tjavascript_lexing\tdollar_identifiers\tbacktick_strings\n";

/// Go.
pub const GO_PACK: &'static str = "STREAMDOWN_LANGPACK\t1\naliases\tgo\tgolang\nkeywords\tbreak\tcase\tchan\tconst\tcontinue\tdefault\tdefer\telse\tfallthrough\tfor\tfunc\tgo\tgoto\tif\timport\tinterface\tmap\tpackage\trange\treturn\tselect\tstruct\tswitch\ttype\tvar\ttrue\tfalse\tnil\nbuiltin_types\tbool\tbyte\tcomplex64\tcomplex128\terror\tfloat32\tfloat64\tint\tint8\tint16\tint32\tint64\trune\tstring\tuint\tuint8\tuint16\tuint32\tuint64\tuintptr\tany\nfunction_declarations\tfunc\ntype_declarations\ttype\nflags\tslash_comments\tblock_comments\tbacktick_strings\n";

/// C and C++.
pub const CPP_PACK: &'static str = "STREAMDOWN_LANGPACK\t1\naliases\tcpp\tc\tc++\tcc\tcxx\th\thpp\thxx\nkeywords\talignas\talignof\tasm\tauto\tbreak\tcase\tcatch\tclass\tconst\tconstexpr\tcontinue\tdecltype\tdefault\tdelete\tdo\telse\tenum\texplicit\texport\textern\tfalse\tfor\tfriend\tgoto\tif\tinline\tmutable\tnamespace\tnew\tnoexcept\tnullptr\toperator\tprivate\tprotected\tpublic\tregister\treturn\tsizeof\tstatic\tstatic_assert\tstruct\tswitch\ttemplate\tthis\tthrow\ttrue\ttry\ttypedef\ttypename\tunion\tusing\tvirtual\tvolatile\twhile\nbuiltin_types\tbool\tchar\tchar8_t\tchar16_t\tchar32_t\tdouble\tfloat\tint\tlong\tshort\tsigned\tunsigned\tvoid\twchar_t\tsize_t\tint8_t\tint16_t\tint32_t\tint64_t\tuint8_t\tuint16_t\tuint32_t\tuint64_t\ntype_declarations\tclass\tstruct\tenum\tunion\ttypename\npreprocessor_macro_operands\tdefine\tundef\tifdef\tifndef\npreprocessor_headers\tinclude\tinclude_next\timport\nmacro_identifiers\tdefined\t__has_include\t__has_include_next\nmacro_operand_identifiers\tdefined\nheader_macro_identifiers\t__has_include\t__has_include_next\nflags\tslash_comments\tblock_comments\tpreprocessor\tuppercase_macros\tapostrophe_digit_separators\tc_family_prefixed_strings\n";

/// CUDA C++.
pub const CUDA_PACK: &'static str = "STREAMDOWN_LANGPACK\t1\naliases\tcuda\tcu\tcuh\nkeywords\t__global__\t__device__\t__host__\t__shared__\t__constant__\tauto\tbreak\tcase\tclass\tconst\tconstexpr\tcontinue\tdefault\tdelete\tdo\telse\tenum\textern\tfalse\tfor\tif\tinline\tnamespace\tnew\tnullptr\treturn\tsizeof\tstatic\tstruct\tswitch\ttemplate\tthis\ttrue\ttypedef\ttypename\tunion\tusing\tvolatile\twhile\nbuiltin_types\tbool\tchar\tdouble\tfloat\tint\tlong\tshort\tsigned\tunsigned\tvoid\tsize_t\tdim3\tfloat2\tfloat3\tfloat4\tint2\tint3\tint4\ntype_declarations\tclass\tstruct\tenum\tunion\ttypename\npreprocessor_macro_operands\tdefine\tundef\tifdef\tifndef\npreprocessor_headers\tinclude\tinclude_next\nmacro_identifiers\tdefined\t__has_include\nmacro_operand_identifiers\tdefined\nheader_macro_identifiers\t__has_include\nflags\tslash_comments\tblock_comments\tpreprocessor\tuppercase_macros\tapostrophe_digit_separators\tc_family_prefixed_strings\n";

/// C#.
pub const CSHARP_PACK: &'static str = "STREAMDOWN_LANGPACK\t1\naliases\tcsharp\tcs\tc#\tdotnet\nkeywords\tabstract\tas\tasync\tawait\tbase\tbreak\tcase\tcatch\tchecked\tclass\tconst\tcontinue\tdefault\tdelegate\tdo\telse\tenum\tevent\texplicit\textern\tfalse\tfinally\tfixed\tfor\tforeach\tgoto\tif\timplicit\tin\tinterface\tinternal\tis\tlock\tnamespace\tnew\tnull\toperator\tout\toverride\tparams\tprivate\tprotected\tpublic\treadonly\trecord\tref\treturn\tsealed\tsizeof\tstackalloc\tstatic\tstruct\tswitch\tthis\tthrow\ttrue\ttry\ttypeof\tunchecked\tunsafe\tusing\tvar\tvirtual\tvolatile\twhile\nbuiltin_types\tbool\tbyte\tchar\tdecimal\tdouble\tfloat\tint\tlong\tobject\tsbyte\tshort\tstring\tuint\tulong\tushort\tvoid\tnint\tnuint\tdynamic\ntype_declarations\tclass\tstruct\tinterface\tenum\trecord\nflags\tslash_comments\tblock_comments\tpreprocessor\tcsharp_prefixed_strings\n";

/// Objective-C.
pub const OBJECTIVEC_PACK: &'static str = "STREAMDOWN_LANGPACK\t1\naliases\tobjectivec\tobjective-c\tobjc\tmm\nkeywords\tbreak\tcase\tconst\tcontinue\tdefault\tdo\telse\tenum\textern\tfor\tgoto\tif\treturn\tsizeof\tstatic\tstruct\tswitch\ttypedef\tunion\twhile\tself\tsuper\tnil\tYES\tNO\tinterface\timplementation\tend\tproperty\tprotocol\tsynthesize\tclass\nbuiltin_types\tBOOL\tchar\tdouble\tfloat\tint\tlong\tshort\tvoid\tid\tinstancetype\tNSInteger\tNSUInteger\tSEL\ntype_declarations\tstruct\tenum\tunion\tinterface\tprotocol\npreprocessor_macro_operands\tdefine\tundef\tifdef\tifndef\npreprocessor_headers\tinclude\timport\nflags\tslash_comments\tblock_comments\tpreprocessor\tuppercase_macros\tobjective_c_strings\tc_family_prefixed_strings\n";

/// Swift.
pub const SWIFT_PACK: &'static str = "STREAMDOWN_LANGPACK\t1\naliases\tswift\nkeywords\tassociatedtype\tclass\tdeinit\tenum\textension\tfileprivate\tfunc\timport\tinit\tinout\tinternal\tlet\topen\toperator\tprivate\tprotocol\tpublic\trethrows\tstatic\tstruct\tsubscript\ttypealias\tvar\tbreak\tcase\tcontinue\tdefault\tdefer\tdo\telse\tfallthrough\tfor\tguard\tif\tin\trepeat\treturn\tswitch\twhere\twhile\tas\tcatch\tfalse\tis\tnil\tsuper\tself\tSelf\tthrow\tthrows\ttrue\ttry\tasync\tawait\nbuiltin_types\tInt\tInt8\tInt16\tInt32\tInt64\tUInt\tUInt8\tUInt16\tUInt32\tUInt64\tDouble\tFloat\tBool\tString\tCharacter\nfunction_declarations\tfunc\ntype_declarations\tclass\tstruct\tenum\tprotocol\textension\ttypealias\nflags\tslash_comments\tblock_comments\tnested_block_comments\ttriple_double_strings\tswift_hash_raw_strings\tbacktick_identifiers\n";

/// PowerShell.
pub const POWERSHELL_PACK: &'static str = "STREAMDOWN_LANGPACK\t1\naliases\tpowershell\tps1\tpwsh\tpsm1\nkeywords\tbegin\tbreak\tcatch\tclass\tcontinue\tdata\tdo\tdynamicparam\telse\telseif\tend\tenum\texit\tfilter\tfinally\tfor\tforeach\tfrom\tfunction\thidden\tif\tin\tparam\tprocess\treturn\tstatic\tswitch\tthrow\ttrap\ttry\tuntil\tusing\tvar\twhile\nfunction_declarations\tfunction\tfilter\ntype_declarations\tclass\tenum\ncomment_styles\tangle_hash\nflags\tcase_insensitive_keywords\thash_comments\tdollar_identifiers\thyphen_identifiers\tmultiline_strings\tpowershell_here_strings\n";

/// Pascal.
pub const PASCAL_PACK: &'static str = "STREAMDOWN_LANGPACK\t1\naliases\tpascal\nkeywords\tand\tarray\tbegin\tcase\tconst\tdiv\tdo\tdownto\telse\tend\tfile\tfor\tfunction\tgoto\tif\tin\timplementation\tinterface\tlabel\tmod\tnil\tnot\tof\tor\tpacked\tprocedure\tprogram\trecord\trepeat\tset\tthen\tto\ttype\tunit\tuntil\tuses\tvar\twhile\twith\nbuiltin_types\tinteger\treal\tboolean\tchar\tstring\tbyte\tword\tlongint\nfunction_declarations\tfunction\tprocedure\ncomment_styles\tbrace\nflags\tcase_insensitive_keywords\tslash_comments\tparen_star_comments\n";

/// Object Pascal (Delphi, Free Pascal).
pub const OBJECTPASCAL_PACK: &'static str = "STREAMDOWN_LANGPACK\t1\naliases\tobjectpascal\tdelphi\tfreepascal\tlazarus\nkeywords\tand\tarray\tas\tbegin\tcase\tclass\tconst\tconstructor\tdestructor\tdiv\tdo\tdownto\telse\tend\texcept\tfinally\tfor\tfunction\tif\timplementation\tin\tinherited\tinterface\tis\tmod\tnil\tnot\tobject\tof\tor\tprivate\tprocedure\tprogram\tproperty\tprotected\tpublic\tpublished\traise\trecord\trepeat\tthen\tto\ttry\ttype\tunit\tuntil\tuses\tvar\twhile\twith\nbuiltin_types\tInteger\tCardinal\tDouble\tExtended\tBoolean\tChar\tString\tByte\tWord\tInt64\nfunction_declarations\tfunction\tprocedure\tconstructor\tdestructor\ncomment_styles\tbrace\nflags\tcase_insensitive_keywords\tslash_comments\tparen_star_comments\n";

/// Scheme and Racket.
pub const SCHEME_PACK: &'static str = "STREAMDOWN_LANGPACK\t1\naliases\tscheme\tracket\trkt\tscm\tss\nkeywords\tdefine\tlambda\tlet\tletrec\tif\tcond\tcase\tand\tor\tbegin\tdo\tdelay\tquote\tquasiquote\tunquote\tset!\tdefine-syntax\tsyntax-rules\telse\twhen\tunless\tdefine-record-type\nfunction_declarations\tdefine\ncomment_styles\thash_pipe\nflags\tsemicolon_comments\thyphen_identifiers\tquestion_identifiers\tbang_identifiers\n";

/// D.
pub const DLANG_PACK: &'static str = "STREAMDOWN_LANGPACK\t1\naliases\tdlang\td\nkeywords\tabstract\talias\talign\tasm\tassert\tauto\tbreak\tcase\tcast\tcatch\tclass\tconst\tcontinue\tdebug\tdefault\tdelegate\tdelete\tdeprecated\tdo\telse\tenum\texport\textern\tfalse\tfinal\tfinally\tfor\tforeach\tforeach_reverse\tfunction\tgoto\tif\timmutable\timport\tin\tinout\tinterface\tinvariant\tis\tlazy\tmixin\tmodule\tnew\tnothrow\tnull\tout\toverride\tpackage\tpragma\tprivate\tprotected\tpublic\tpure\tref\treturn\tscope\tshared\tstatic\tstruct\tsuper\tswitch\tsynchronized\ttemplate\tthis\tthrow\ttrue\ttry\ttypeid\ttypeof\tunion\tunittest\tversion\twhile\twith\nbuiltin_types\tbool\tbyte\tubyte\tshort\tushort\tint\tuint\tlong\tulong\tfloat\tdouble\treal\tchar\twchar\tdchar\tstring\tvoid\tsize_t\ntype_declarations\tclass\tstruct\tinterface\tenum\tunion\ttemplate\ncomment_styles\tslash_plus\nflags\tslash_comments\tblock_comments\tbacktick_strings\n";

/// Shell (bash, zsh, POSIX sh).
pub const SHELL_PACK: &'static str = "STREAMDOWN_LANGPACK\t1\naliases\tshell\tbash\tsh\tzsh\tksh\tconsole\nkeywords\tif\tthen\telse\telif\tfi\tcase\tesac\tfor\tselect\twhile\tuntil\tdo\tdone\tin\tfunction\ttime\tcoproc\treturn\texit\tlocal\texport\treadonly\tdeclare\ttypeset\tunset\tbreak\tcontinue\nfunction_declarations\tfunction\nflags\thash_comments\tdollar_identifiers\tbacktick_strings\tmultiline_strings\tshell_heredocs\tshell_prefixed_strings\n";

/// LLVM IR.
pub const LLVM_IR_PACK: &'static str = "STREAMDOWN_LANGPACK\t1\naliases\tllvm-ir\tllvm\tll\nkeywords\tdefine\tdeclare\tret\tbr\tswitch\tcall\tinvoke\tload\tstore\talloca\tgetelementptr\ticmp\tfcmp\tadd\tsub\tmul\tsdiv\tudiv\tand\tor\txor\tshl\tlshr\tashr\tphi\tselect\tbitcast\ttrunc\tzext\tsext\tptrtoint\tinttoptr\tglobal\tconstant\tprivate\tinternal\texternal\tunreachable\tlabel\ttype\tattributes\nbuiltin_types\tvoid\ti1\ti8\ti16\ti32\ti64\ti128\thalf\tfloat\tdouble\tptr\nfunction_declarations\tdefine\tdeclare\nflags\tsemicolon_comments\n";

/// MLIR.
pub const MLIR_PACK: &'static str = "STREAMDOWN_LANGPACK\t1\naliases\tmlir-ir\tmlir\nkeywords\tfunc\tmodule\treturn\tarith\tscf\tmemref\taffine\ttensor\tlinalg\taffine_map\tbuiltin\tcall\tbr\tcond_br\tyield\nbuiltin_types\tindex\ti1\ti8\ti16\ti32\ti64\tf16\tf32\tf64\tbf16\tnone\nflags\tslash_comments\n";

/// The CIRCT hardware dialect of MLIR.
pub const CIRCT_HW_PACK: &'static str = "STREAMDOWN_LANGPACK\t1\naliases\tcirct-hw-dialect\tcirct\tcirct-hw\nkeywords\thw\tmodule\toutput\tinstance\tconstant\tcomb\tseq\tsv\tfirrtl\treturn\nbuiltin_types\ti1\ti8\ti16\ti32\ti64\nflags\tslash_comments\n";

/// The StableHLO dialect of MLIR.
pub const STABLEHLO_PACK: &'static str = "STREAMDOWN_LANGPACK\t1\naliases\tstablehlo\tstable-hlo\nkeywords\tstablehlo\tfunc\treturn\tmodule\tadd\tdot_general\tconstant\tbroadcast_in_dim\treduce\nbuiltin_types\ttensor\ti1\ti32\ti64\tf16\tf32\tf64\tbf16\nflags\tslash_comments\n";

/// TensorFlow dialects of MLIR.
pub const TENSORFLOW_MLIR_PACK: &'static str = "STREAMDOWN_LANGPACK\t1\naliases\ttensorflow-mlir\ttf-mlir\nkeywords\ttf\ttf_executor\ttfl\tfunc\treturn\tmodule\tgraph\tisland\tfetch\nbuiltin_types\ttensor\ti1\ti32\ti64\tf16\tf32\tf64\nflags\tslash_comments\n";

/// NVIDIA PTX assembly.
pub const PTX_PACK: &'static str = "STREAMDOWN_LANGPACK\t1\naliases\tnvidia-ptx\tptx\nkeywords\tld\tst\tmov\tadd\tsub\tmul\tmad\tdiv\trem\tret\tbra\tentry\tfunc\treg\tglobal\tshared\tlocal\tparam\tconst\tversion\ttarget\taddress_size\tsetp\tselp\tcvt\texit\tbar\tcall\nbuiltin_types\tu8\tu16\tu32\tu64\ts8\ts16\ts32\ts64\tf16\tf32\tf64\tb8\tb16\tb32\tb64\tpred\nflags\tslash_comments\tblock_comments\n";

/// SPIR-V assembly.
pub const SPIRV_PACK: &'static str = "STREAMDOWN_LANGPACK\t1\naliases\tspir-v-assembly\tspirv\tspir-v\tspvasm\nkeywords\tOpCapability\tOpExtension\tOpExtInstImport\tOpMemoryModel\tOpEntryPoint\tOpExecutionMode\tOpName\tOpDecorate\tOpTypeVoid\tOpTypeBool\tOpTypeInt\tOpTypeFloat\tOpTypeVector\tOpTypePointer\tOpTypeFunction\tOpConstant\tOpVariable\tOpFunction\tOpFunctionEnd\tOpLabel\tOpLoad\tOpStore\tOpReturn\tOpReturnValue\nflags\tsemicolon_comments\n";

/// Smali (Dalvik bytecode assembly).
pub const SMALI_PACK: &'static str = "STREAMDOWN_LANGPACK\t1\naliases\tsmali\tdalvik\nkeywords\tinvoke-static\tinvoke-virtual\tinvoke-direct\tinvoke-super\tinvoke-interface\tmove\tmove-result\tmove-result-object\treturn\treturn-void\treturn-object\tconst\tconst-string\tnew-instance\tiget\tiput\tsget\tsput\tif-eq\tif-ne\tif-eqz\tif-nez\tgoto\tclass\tsuper\tmethod\tfield\tend\nflags\thash_comments\thyphen_identifiers\n";

/// QBE intermediate language.
pub const QBE_PACK: &'static str = "STREAMDOWN_LANGPACK\t1\naliases\tqbe-il\tqbe\nkeywords\texport\tfunction\tdata\ttype\tret\tjmp\tjnz\tcall\talloc4\talloc8\talloc16\tload\tstore\tadd\tsub\tmul\tdiv\tphi\thlt\nbuiltin_types\tw\tl\ts\td\tb\th\nfunction_declarations\tfunction\ntype_declarations\ttype\nflags\thash_comments\n";

/// Cranelift IR.
pub const CRANELIFT_PACK: &'static str = "STREAMDOWN_LANGPACK\t1\naliases\tcranelift-ir\tcranelift\tclif\nkeywords\tfunction\tblock\treturn\tjump\tbrif\tcall\ticonst\tiadd\tisub\timul\tload\tstore\tstack_slot\tsig\tfn\nbuiltin_types\ti8\ti16\ti32\ti64\tf32\tf64\nfunction_declarations\tfunction\nflags\tsemicolon_comments\n";

/// Julia.
pub const JULIA_PACK: &'static str = "STREAMDOWN_LANGPACK\t1\naliases\tjulia\tjl\nkeywords\tfunction\tend\tif\telse\telseif\tfor\twhile\treturn\tmodule\tusing\timport\texport\tstruct\tmutable\tabstract\ttype\tbegin\tlet\tlocal\tglobal\tconst\tdo\ttry\tcatch\tfinally\tmacro\tquote\tbreak\tcontinue\ttrue\tfalse\tnothing\nbuiltin_types\tInt\tInt8\tInt16\tInt32\tInt64\tUInt8\tFloat32\tFloat64\tBool\tString\tChar\tAny\tVector\tMatrix\nfunction_declarations\tfunction\tmacro\ntype_declarations\tstruct\ncomment_styles\thash_equals\nflags\thash_comments\tmultiline_strings\ttriple_double_strings\tbacktick_strings\tpostfix_apostrophe_operators\n";

/// Nim.
pub const NIM_PACK: &'static str = "STREAMDOWN_LANGPACK\t1\naliases\tnim\tnimrod\nkeywords\tproc\tfunc\tlet\tvar\tconst\ttype\tif\telif\telse\tfor\twhile\treturn\timport\tfrom\twhen\tcase\tof\tobject\tref\tptr\titerator\ttemplate\tmacro\tmethod\tdiscard\tyield\tand\tor\tnot\tin\tis\tnil\ttrue\tfalse\nbuiltin_types\tint\tint8\tint16\tint32\tint64\tuint\tfloat\tfloat32\tfloat64\tbool\tchar\tstring\tseq\nfunction_declarations\tproc\tfunc\titerator\ttemplate\tmacro\tmethod\ntype_declarations\ttype\ncomment_styles\thash_bracket\nflags\thash_comments\ttriple_double_strings\n";

/// Lua.
pub const LUA_PACK: &'static str = "STREAMDOWN_LANGPACK\t1\naliases\tlua\nkeywords\tand\tbreak\tdo\telse\telseif\tend\tfalse\tfor\tfunction\tgoto\tif\tin\tlocal\tnil\tnot\tor\trepeat\treturn\tthen\ttrue\tuntil\twhile\nfunction_declarations\tfunction\nflags\tdash_comments\tlua_long_brackets\n";

/// CMake.
pub const CMAKE_PACK: &'static str = "STREAMDOWN_LANGPACK\t1\naliases\tcmake\tcmakelists\nkeywords\tset\tunset\tif\telse\telseif\tendif\tforeach\tendforeach\twhile\tendwhile\tfunction\tendfunction\tmacro\tendmacro\treturn\tbreak\tcontinue\tinclude\tproject\toption\tmessage\tlist\tstring\tadd_executable\tadd_library\tadd_subdirectory\ttarget_link_libraries\ttarget_include_directories\tfind_package\tcmake_minimum_required\tinstall\nfunction_declarations\tfunction\tmacro\nflags\tcase_insensitive_keywords\thash_comments\tmultiline_strings\tcmake_brackets\n";

/// The WebAssembly text format.
pub const WAT_PACK: &'static str = "STREAMDOWN_LANGPACK\t1\naliases\twat\twast\twebassembly\nkeywords\tmodule\tfunc\tparam\tresult\tlocal\tglobal\tmemory\ttable\tdata\telem\texport\timport\ttype\tstart\tcall\tcall_indirect\tblock\tloop\tif\tthen\telse\tend\tbr\tbr_if\tbr_table\treturn\tdrop\tselect\tunreachable\tnop\tmut\toffset\nbuiltin_types\ti32\ti64\tf32\tf64\tv128\tfuncref\texternref\nfunction_declarations\tfunc\nflags\tdouble_semicolon_comments\tparen_semicolon_comments\tnested_block_comments\n";

/// Ruby.
pub const RUBY_PACK: &'static str = "STREAMDOWN_LANGPACK\t1\naliases\truby\trb\tgemfile\trake\nkeywords\tBEGIN\tEND\talias\tand\tbegin\tbreak\tcase\tclass\tdef\tdefined?\tdo\telse\telsif\tend\tensure\tfalse\tfor\tif\tin\tmodule\tnext\tnil\tnot\tor\tredo\trescue\tretry\treturn\tself\tsuper\tthen\ttrue\tundef\tunless\tuntil\twhen\twhile\tyield\nfunction_declarations\tdef\ntype_declarations\tclass\tmodule\nflags\thash_comments\tquestion_identifiers\tbang_identifiers\tbacktick_strings\tmultiline_strings\truby_percent_literals\n";

/// Perl.
pub const PERL_PACK: &'static str = "STREAMDOWN_LANGPACK\t1\naliases\tperl\tpl\tpm\nkeywords\tmy\tour\tlocal\tsub\tif\telsif\telse\tunless\twhile\tuntil\tfor\tforeach\treturn\tuse\tpackage\trequire\tlast\tnext\tredo\tdo\teval\tand\tor\tnot\nfunction_declarations\tsub\nflags\thash_comments\tdollar_identifiers\tbacktick_strings\tmultiline_strings\n";

/// Kotlin.
pub const KOTLIN_PACK: &'static str = "STREAMDOWN_LANGPACK\t1\naliases\tkotlin\tkt\tkts\nkeywords\tval\tvar\tfun\tclass\tobject\tinterface\tif\telse\twhen\tfor\twhile\tdo\treturn\tbreak\tcontinue\tin\tis\tas\tnull\ttrue\tfalse\tpackage\timport\tthis\tsuper\ttry\tcatch\tfinally\tthrow\ttypealias\tdata\tsealed\tenum\tcompanion\toverride\topen\tprivate\tpublic\tinternal\tprotected\tabstract\nbuiltin_types\tInt\tLong\tShort\tByte\tDouble\tFloat\tBoolean\tChar\tString\tUnit\tAny\tNothing\nfunction_declarations\tfun\ntype_declarations\tclass\tinterface\tobject\ttypealias\nflags\tslash_comments\tblock_comments\tnested_block_comments\ttriple_double_strings\tbacktick_identifiers\n";

/// Scala.
pub const SCALA_PACK: &'static str = "STREAMDOWN_LANGPACK\t1\naliases\tscala\tsc\nkeywords\tval\tvar\tdef\tclass\tobject\ttrait\textends\twith\tif\telse\tmatch\tcase\tfor\twhile\tdo\treturn\tyield\timport\tpackage\tnew\tthis\tsuper\tnull\ttrue\tfalse\ttry\tcatch\tfinally\tthrow\ttype\tsealed\tabstract\toverride\timplicit\tlazy\tprivate\tprotected\nbuiltin_types\tInt\tLong\tShort\tByte\tDouble\tFloat\tBoolean\tChar\tString\tUnit\tAny\tNothing\nfunction_declarations\tdef\ntype_declarations\tclass\tobject\ttrait\ttype\nflags\tslash_comments\tblock_comments\tnested_block_comments\ttriple_double_strings\tbacktick_identifiers\n";

/// R.
pub const R_PACK: &'static str = "STREAMDOWN_LANGPACK\t1\naliases\tr\trlang\trscript\nkeywords\tif\telse\trepeat\twhile\tfunction\tfor\tin\tnext\tbreak\treturn\tTRUE\tFALSE\tNULL\tInf\tNaN\tNA\nfunction_declarations\tfunction\nflags\thash_comments\tmultiline_strings\tbacktick_identifiers\tr_raw_strings\n";

/// Haskell.
pub const HASKELL_PACK: &'static str = "STREAMDOWN_LANGPACK\t1\naliases\thaskell\ths\tlhs\nkeywords\tcase\tclass\tdata\tdefault\tderiving\tdo\telse\tforeign\tif\timport\tin\tinfix\tinfixl\tinfixr\tinstance\tlet\tmodule\tnewtype\tof\tthen\ttype\twhere\nbuiltin_types\tInt\tInteger\tFloat\tDouble\tChar\tString\tBool\tMaybe\tEither\tIO\ntype_declarations\tdata\tnewtype\ttype\tclass\nflags\tdash_comments\tbrace_dash_comments\tnested_block_comments\tbacktick_operators\tapostrophe_identifiers\tapostrophe_names\thaskell_quasiquotes\n";

/// OCaml.
pub const OCAML_PACK: &'static str = "STREAMDOWN_LANGPACK\t1\naliases\tocaml\tml\tmli\nkeywords\tlet\tin\tmatch\twith\ttype\tof\tfun\tfunction\tif\tthen\telse\trec\tand\topen\tmodule\tstruct\tsig\tend\tbegin\tval\tmutable\twhen\tas\ttry\texception\traise\texternal\nbuiltin_types\tint\tfloat\tbool\tchar\tstring\tunit\tlist\toption\tarray\ntype_declarations\ttype\nflags\tparen_star_comments\tnested_block_comments\tbacktick_operators\tapostrophe_identifiers\tapostrophe_names\tocaml_quoted_strings\n";

/// F#.
pub const FSHARP_PACK: &'static str = "STREAMDOWN_LANGPACK\t1\naliases\tfsharp\tfs\tfsx\tf#\nkeywords\tlet\tin\tmatch\twith\ttype\tof\tfun\tfunction\tif\tthen\telse\trec\tand\topen\tmodule\tnamespace\tmember\tval\tmutable\twhen\tas\ttry\tfinally\traise\tinline\tprivate\tpublic\tdo\tfor\twhile\tyield\nbuiltin_types\tint\tfloat\tbool\tchar\tstring\tunit\tlist\toption\tarray\ntype_declarations\ttype\nflags\tslash_comments\tparen_star_comments\tnested_block_comments\tapostrophe_identifiers\tapostrophe_names\ttriple_double_strings\tfsharp_interpolated_strings\n";

/// Standard ML.
pub const SML_PACK: &'static str = "STREAMDOWN_LANGPACK\t1\naliases\tsml\tstandardml\nkeywords\tfun\tval\tlet\tin\tend\tfn\tcase\tof\tif\tthen\telse\tdatatype\ttype\tstructure\tsignature\tfunctor\topen\tlocal\tand\tandalso\torelse\traise\thandle\trec\nbuiltin_types\tint\treal\tbool\tchar\tstring\tunit\tlist\toption\nfunction_declarations\tfun\ntype_declarations\tdatatype\ttype\nflags\tparen_star_comments\tnested_block_comments\tapostrophe_identifiers\tapostrophe_names\n";

/// VHDL.
pub const VHDL_PACK: &'static str = "STREAMDOWN_LANGPACK\t1\naliases\tvhdl\tvhd\nkeywords\tlibrary\tuse\tentity\tis\tport\tin\tout\tinout\tend\tarchitecture\tof\tbegin\tsignal\tprocess\tif\tthen\telse\telsif\tnull\twhen\tothers\tcase\tloop\tfor\tgenerate\tcomponent\tmap\tconstant\tvariable\ttype\tdownto\tto\tand\tor\tnot\nbuiltin_types\tstd_logic\tstd_logic_vector\tbit\tinteger\tboolean\nflags\tcase_insensitive_keywords\tdash_comments\tapostrophe_names\n";

/// Elixir.
pub const ELIXIR_PACK: &'static str = "STREAMDOWN_LANGPACK\t1\naliases\telixir\tex\texs\nkeywords\tdef\tdefp\tdefmodule\tdefmacro\tdo\tend\tif\telse\tunless\tcase\tcond\tfn\twhen\tand\tor\tnot\tin\ttrue\tfalse\tnil\timport\talias\trequire\tuse\tquote\tunquote\treceive\ttry\trescue\tafter\nfunction_declarations\tdef\tdefp\nmacro_declarations\tdefmacro\nflags\thash_comments\tquestion_identifiers\tbang_identifiers\tmultiline_strings\ttriple_double_strings\telixir_sigils\n";

/// Groovy.
pub const GROOVY_PACK: &'static str = "STREAMDOWN_LANGPACK\t1\naliases\tgroovy\tgvy\tgradle\nkeywords\tdef\tclass\tinterface\tif\telse\tfor\twhile\treturn\tnew\timport\tpackage\ttrue\tfalse\tnull\tin\tas\tswitch\tcase\tbreak\tcontinue\ttry\tcatch\tfinally\tthrow\ntype_declarations\tclass\tinterface\nflags\tslash_comments\tblock_comments\ttriple_double_strings\ttriple_single_strings\tgroovy_dollar_slashy\n";

/// MATLAB and Octave.
pub const MATLAB_PACK: &'static str = "STREAMDOWN_LANGPACK\t1\naliases\tmatlab\toctave\nkeywords\tfunction\tend\tif\telseif\telse\tfor\twhile\tswitch\tcase\totherwise\treturn\tbreak\tcontinue\ttry\tcatch\tglobal\tpersistent\nfunction_declarations\tfunction\nflags\tpercent_comments\tpostfix_apostrophe_operators\n";

/// PHP.
pub const PHP_PACK: &'static str = "STREAMDOWN_LANGPACK\t1\naliases\tphp\nkeywords\tfunction\tclass\tif\telse\telseif\twhile\tfor\tforeach\treturn\techo\tnew\tpublic\tprivate\tprotected\tstatic\tarray\tas\ttrue\tfalse\tnull\tnamespace\tuse\nfunction_declarations\tfunction\ntype_declarations\tclass\nflags\tslash_comments\thash_comments\tblock_comments\tdollar_identifiers\tmultiline_strings\tphp_heredocs\n";

/// SQL, with PostgreSQL dollar quoting.
pub const SQL_PACK: &'static str = "STREAMDOWN_LANGPACK\t1\naliases\tsql\tpostgresql\tpostgres\tpsql\tpgsql\tplpgsql\nkeywords\tselect\tfrom\twhere\tinsert\tinto\tupdate\tdelete\tcreate\ttable\tdrop\talter\tdo\tbegin\tend\traise\tnotice\tas\tand\tor\tnot\tnull\tjoin\ton\tgroup\tby\torder\thaving\tlimit\tvalues\tset\treturns\tlanguage\nbuiltin_types\tinteger\tint\tbigint\ttext\tvarchar\tboolean\tnumeric\nflags\tcase_insensitive_keywords\tdash_comments\tblock_comments\tdollar_quoted_strings\n";

/// Verilog and SystemVerilog.
pub const VERILOG_PACK: &'static str = "STREAMDOWN_LANGPACK\t1\naliases\tverilog\tsystemverilog\tsv\tvh\tsvh\nkeywords\tmodule\tendmodule\tinput\toutput\tinout\twire\treg\tlogic\talways\talways_ff\talways_comb\tassign\tbegin\tend\tif\telse\tcase\tendcase\tfor\tint\tparameter\tlocalparam\tdefault\tfunction\tendfunction\nfunction_declarations\tfunction\nflags\tslash_comments\tblock_comments\tverilog_numbers\tbacktick_macros\n";

/// Clojure.
pub const CLOJURE_PACK: &'static str = "STREAMDOWN_LANGPACK\t1\naliases\tclojure\tclj\tcljs\tedn\nkeywords\tdef\tdefn\tdefn-\tfn\tlet\tif\tdo\twhen\tcond\tloop\trecur\tns\trequire\nfunction_declarations\tdefn\tdefn-\nflags\tsemicolon_comments\thyphen_identifiers\tquestion_identifiers\tbang_identifiers\n";

/// Erlang.
pub const ERLANG_PACK: &'static str = "STREAMDOWN_LANGPACK\t1\naliases\terlang\terl\nkeywords\tmodule\texport\tfun\tcase\tof\tend\tif\treceive\tafter\twhen\tbegin\ttry\tcatch\tthrow\nflags\tpercent_comments\n";

/// Visual Basic .NET.
pub const VBNET_PACK: &'static str = "STREAMDOWN_LANGPACK\t1\naliases\tvbnet\tvb\nkeywords\tDim\tAs\tIf\tThen\tElse\tEnd\tSub\tFunction\tClass\tModule\tReturn\tFor\tNext\tWhile\tPublic\tPrivate\nfunction_declarations\tSub\tFunction\ntype_declarations\tClass\tModule\nflags\tcase_insensitive_keywords\tapostrophe_comments\n";

/// Fortran.
pub const FORTRAN_PACK: &'static str = "STREAMDOWN_LANGPACK\t1\naliases\tfortran\tf90\tf95\tf03\tf08\nkeywords\tprogram\tend\tsubroutine\tfunction\tinteger\treal\tif\tthen\telse\tdo\tcall\tmodule\tuse\timplicit\tnone\nfunction_declarations\tsubroutine\tfunction\nflags\tcase_insensitive_keywords\tbang_comments\n";

/// Dart.
pub const DART_PACK: &'static str = "STREAMDOWN_LANGPACK\t1\naliases\tdart\nkeywords\tabstract\tas\tasync\tawait\tbreak\tcase\tcatch\tclass\tconst\tcontinue\tdefault\tdo\telse\tenum\textends\tfalse\tfinal\tfinally\tfor\tif\timport\tin\tis\tnew\tnull\treturn\tstatic\tsuper\tswitch\tthis\tthrow\ttrue\ttry\tvar\tvoid\twhile\nbuiltin_types\tint\tdouble\tnum\tbool\tString\tList\tMap\tSet\tdynamic\ntype_declarations\tclass\tenum\nflags\tslash_comments\tblock_comments\ttriple_double_strings\ttriple_single_strings\n";

/// The built-in packs, in lookup order.
pub open spec fn spec_embedded_packs() -> Seq<&'static str> {
    seq![
        RUST_PACK, PYTHON_PACK, JAVASCRIPT_PACK, GO_PACK, CPP_PACK, CUDA_PACK, CSHARP_PACK,
        OBJECTIVEC_PACK, SWIFT_PACK, POWERSHELL_PACK, PASCAL_PACK, OBJECTPASCAL_PACK, SCHEME_PACK,
        DLANG_PACK, SHELL_PACK, LLVM_IR_PACK, MLIR_PACK, CIRCT_HW_PACK, STABLEHLO_PACK,
        TENSORFLOW_MLIR_PACK, PTX_PACK, SPIRV_PACK, SMALI_PACK, QBE_PACK, CRANELIFT_PACK, JULIA_PACK,
        NIM_PACK, LUA_PACK, CMAKE_PACK, WAT_PACK, RUBY_PACK, PERL_PACK, KOTLIN_PACK, SCALA_PACK, R_PACK, HASKELL_PACK, OCAML_PACK, FSHARP_PACK, SML_PACK, VHDL_PACK, ELIXIR_PACK, GROOVY_PACK, MATLAB_PACK, PHP_PACK, SQL_PACK, VERILOG_PACK, CLOJURE_PACK, ERLANG_PACK, VBNET_PACK, FORTRAN_PACK, DART_PACK
    ]
}

/// The built-in packs.
pub fn embedded_packs() -> (r: &'static [&'static str])
    ensures
        r@ == spec_embedded_packs(),
{
    let r: &'static [&'static str] = &[
        RUST_PACK, PYTHON_PACK, JAVASCRIPT_PACK, GO_PACK, CPP_PACK, CUDA_PACK, CSHARP_PACK,
        OBJECTIVEC_PACK, SWIFT_PACK, POWERSHELL_PACK, PASCAL_PACK, OBJECTPASCAL_PACK, SCHEME_PACK,
        DLANG_PACK, SHELL_PACK, LLVM_IR_PACK, MLIR_PACK, CIRCT_HW_PACK, STABLEHLO_PACK,
        TENSORFLOW_MLIR_PACK, PTX_PACK, SPIRV_PACK, SMALI_PACK, QBE_PACK, CRANELIFT_PACK, JULIA_PACK,
        NIM_PACK, LUA_PACK, CMAKE_PACK, WAT_PACK, RUBY_PACK, PERL_PACK, KOTLIN_PACK, SCALA_PACK, R_PACK, HASKELL_PACK, OCAML_PACK, FSHARP_PACK, SML_PACK, VHDL_PACK, ELIXIR_PACK, GROOVY_PACK, MATLAB_PACK, PHP_PACK, SQL_PACK, VERILOG_PACK, CLOJURE_PACK, ERLANG_PACK, VBNET_PACK, FORTRAN_PACK, DART_PACK,
    ];
    assert(r@ =~= spec_embedded_packs());
    r
}

} // verus!
